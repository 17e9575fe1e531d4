use vstd::prelude::*;
use crate::fixed::{round_div, round_div_exec, FIXED_ONE};

verus! {

/// Vertical exaggeration of the projection.
pub const SCALE_FACTOR: i64 = 50;

/// Upper bound on the march limit; the march takes every second depth below it.
pub const MAX_DEPTH: i64 = 300;

/// The viewer. Position, eye height, horizon offset and render distance are
/// fixed-point values in units of `1 / FIXED_ONE`; the heading is given by
/// its cosine and sine, also in units of `1 / FIXED_ONE` (angles grow
/// clockwise on screen).
#[derive(Debug, Clone, Copy, PartialEq, Eq, Structural)]
pub struct Camera {
    pub x: i32,
    pub y: i32,
    pub height: i32,
    pub horizon: i32,
    pub zfar: i32,
    pub cos_angle: i16,
    pub sin_angle: i16,
}

impl Camera {
    /// Left far-plane corner, in units of `1 / (FIXED_ONE * FIXED_ONE)`.
    pub open spec fn left_spec(&self) -> (int, int) {
        let (c, s, z) = (self.cos_angle as int, self.sin_angle as int, self.zfar as int);
        (c * z + s * z, s * z - c * z)
    }

    /// Right far-plane corner, in units of `1 / (FIXED_ONE * FIXED_ONE)`.
    pub open spec fn right_spec(&self) -> (int, int) {
        let (c, s, z) = (self.cos_angle as int, self.sin_angle as int, self.zfar as int);
        (c * z - s * z, s * z + c * z)
    }

    /// The two far-plane corners of the 90-degree view, left then right.
    pub fn view_endpoints(&self) -> (r: ((i64, i64), (i64, i64)))
        ensures
            r.0.0 == self.left_spec().0,
            r.0.1 == self.left_spec().1,
            r.1.0 == self.right_spec().0,
            r.1.1 == self.right_spec().1,
    {
        let c = self.cos_angle as i64;
        let s = self.sin_angle as i64;
        let z = self.zfar as i64;
        proof {
            assert(-0x10_0000_0000_0000 < c * z < 0x10_0000_0000_0000) by (nonlinear_arith)
                requires
                    -0x8000 <= c < 0x8000,
                    -0x8000_0000 <= z < 0x8000_0000,
            ;
            assert(-0x10_0000_0000_0000 < s * z < 0x10_0000_0000_0000) by (nonlinear_arith)
                requires
                    -0x8000 <= s < 0x8000,
                    -0x8000_0000 <= z < 0x8000_0000,
            ;
        }
        ((c * z + s * z, s * z - c * z), (c * z - s * z, s * z + c * z))
    }

    /// Horizontal step of the ray of column `i` on a screen `w` wide, in
    /// units of `1 / (FIXED_ONE * w)`: the blend of the two corners at
    /// `i / w`, divided by the render distance.
    pub open spec fn ray_dx(&self, i: int, w: int) -> int {
        (self.cos_angle + self.sin_angle) * w - 2 * self.sin_angle * i
    }

    /// Vertical step of the ray of column `i`, as `ray_dx`.
    pub open spec fn ray_dy(&self, i: int, w: int) -> int {
        (self.sin_angle - self.cos_angle) * w + 2 * self.cos_angle * i
    }

    /// Where the march stops: half the render distance, rounded, within
    /// `[0, MAX_DEPTH]`.
    pub open spec fn march_limit(&self) -> int {
        let l = round_div(self.zfar as int, 2 * FIXED_ONE);
        if l < 0 {
            0
        } else if l > MAX_DEPTH {
            MAX_DEPTH as int
        } else {
            l
        }
    }

    /// Number of march steps: one for each odd depth below `march_limit`.
    pub open spec fn march_steps(&self) -> int {
        self.march_limit() / 2
    }

    /// Map cell column reached by the ray of column `i` after step `k`
    /// (the ray has moved `4 * (k + 1)` times its step).
    pub open spec fn map_x(&self, i: int, w: int, k: int) -> int {
        (self.x * w + 4 * (k + 1) * self.ray_dx(i, w)) / (FIXED_ONE * w)
    }

    /// Map cell row reached by the ray of column `i` after step `k`.
    pub open spec fn map_y(&self, i: int, w: int, k: int) -> int {
        (self.y * w + 4 * (k + 1) * self.ray_dy(i, w)) / (FIXED_ONE * w)
    }

    /// Screen row of terrain of height `h` seen at depth `z`:
    /// `round((height - h) / z * SCALE_FACTOR + horizon)`.
    pub open spec fn project(&self, h: int, z: int) -> int {
        round_div(
            (self.height - h * FIXED_ONE) * SCALE_FACTOR + self.horizon * z,
            FIXED_ONE * z,
        )
    }

    /// Screen row of the horizon, rounded, and zero when it lies above the screen.
    pub open spec fn horizon_line(&self) -> int {
        let l = round_div(self.horizon as int, FIXED_ONE as int);
        if l < 0 {
            0
        } else {
            l
        }
    }

    pub fn march_steps_exec(&self) -> (r: i64)
        ensures
            r == self.march_steps(),
            0 <= r <= MAX_DEPTH / 2,
    {
        let l = round_div_exec(self.zfar as i64, 2 * FIXED_ONE);
        let l = if l < 0 {
            0
        } else if l > MAX_DEPTH {
            MAX_DEPTH
        } else {
            l
        };
        l / 2
    }

    pub fn horizon_line_exec(&self) -> (r: i64)
        ensures
            r == self.horizon_line(),
            0 <= r < 0x100_0000,
    {
        let l = round_div_exec(self.horizon as i64, FIXED_ONE);
        proof {
            let hz = self.horizon as int;
            if hz >= 0 {
                assert((2 * hz + 256) / 512 <= 0x80_0000) by (nonlinear_arith)
                    requires
                        0 <= hz < 0x8000_0000,
                ;
            }
        }
        if l < 0 {
            0
        } else {
            l
        }
    }

    /// Projection of a map height at the depth of step `k`.
    pub fn project_exec(&self, h: u8, k: i64) -> (r: i64)
        requires
            0 <= k < MAX_DEPTH,
        ensures
            r == self.project(h as int, 2 * k + 1),
    {
        let z = 2 * k + 1;
        let hz = self.horizon as i64;
        proof {
            assert(-0x1000_0000_0000 < hz * z < 0x1000_0000_0000) by (nonlinear_arith)
                requires
                    -0x8000_0000 <= hz < 0x8000_0000,
                    0 < z < 1000,
            ;
        }
        let num = (self.height as i64 - h as i64 * FIXED_ONE) * SCALE_FACTOR + hz * z;
        round_div_exec(num, FIXED_ONE * z)
    }
}

/// The ray of column `i` is the left-to-right blend of the two far-plane
/// corners at `i / w`, divided by the render distance.
pub proof fn lemma_ray_fan(cam: Camera, i: int, w: int)
    ensures
        cam.zfar * cam.ray_dx(i, w) == cam.left_spec().0 * w + (cam.right_spec().0
            - cam.left_spec().0) * i,
        cam.zfar * cam.ray_dy(i, w) == cam.left_spec().1 * w + (cam.right_spec().1
            - cam.left_spec().1) * i,
{
    let (c, s, z) = (cam.cos_angle as int, cam.sin_angle as int, cam.zfar as int);
    assert(z * ((c + s) * w - 2 * s * i) == (c * z + s * z) * w + ((c * z - s * z) - (c * z + s
        * z)) * i) by (nonlinear_arith);
    assert(z * ((s - c) * w + 2 * c * i) == (s * z - c * z) * w + ((s * z + c * z) - (s * z - c
        * z)) * i) by (nonlinear_arith);
}

} // verus!
