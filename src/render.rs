use vstd::prelude::*;
use crate::camera::Camera;
use crate::fixed::{floor_div, FIXED_ONE};
use crate::frame::{pixel_at, set_pixel};
use crate::map::{ConfigurationError, Terrain};

verus! {

/// Largest accepted screen width or height.
pub const MAX_SCREEN_SIDE: usize = 65536;

/// Sky color at the top row.
pub const SKY_TOP: [u8; 3] = [135, 206, 235];

/// Sky color that the gradient reaches at the horizon.
pub const SKY_BOTTOM: [u8; 3] = [70, 130, 180];

/// One channel of the sky gradient in row `y` above a horizon at row `line`:
/// `top * (1 - t) + bottom * t` with `t = y / line`, truncated.
pub open spec fn sky_channel(top: int, bottom: int, y: int, line: int) -> int {
    (top * (line - y) + bottom * y) / line
}

/// The opaque sky pixel of row `y` above a horizon at row `line`.
pub open spec fn sky_pixel(y: int, line: int) -> Seq<u8> {
    seq![
        sky_channel(135, 70, y, line) as u8,
        sky_channel(206, 130, y, line) as u8,
        sky_channel(235, 180, y, line) as u8,
        255u8,
    ]
}

/// Number of rows that the sky covers on a screen `h` rows high.
pub open spec fn sky_rows(line: int, h: int) -> int {
    if line < h {
        line
    } else {
        h
    }
}

/// Opaque black, left where neither sky nor terrain is seen.
pub open spec fn void_pixel() -> Seq<u8> {
    seq![0u8, 0u8, 0u8, 255u8]
}

fn sky_channel_exec(top: u8, bottom: u8, y: i64, line: i64) -> (r: u8)
    requires
        0 <= y < line < 0x100_0000,
    ensures
        r == sky_channel(top as int, bottom as int, y as int, line as int),
{
    proof {
        assert(0 <= top * (line - y) <= 255 * (line - y)) by (nonlinear_arith)
            requires
                top <= 255,
                y < line,
        ;
        assert(0 <= bottom * y <= 255 * y) by (nonlinear_arith)
            requires
                bottom <= 255,
                0 <= y,
        ;
    }
    let a = top as i64 * (line - y);
    let b = bottom as i64 * y;
    proof {
        assert((a + b) / (line as int) <= 255) by (nonlinear_arith)
            requires
                0 <= a + b <= 255 * line,
                line > 0,
        ;
    }
    ((a + b) / line) as u8
}

/// Paints the sky gradient over the rows above the camera's horizon line
/// (all rows when the horizon lies below the screen, none when it lies at
/// or above the top), leaving every other pixel as it was.
pub fn fill_sky(frame: &mut Vec<u8>, width: usize, height: usize, camera: &Camera)
    requires
        old(frame)@.len() == width * height * 4,
        height <= MAX_SCREEN_SIDE,
    ensures
        final(frame)@.len() == old(frame)@.len(),
        forall|x: int, y: int|
            0 <= x < width && 0 <= y < height ==> #[trigger] pixel_at(final(frame)@, width as int, x, y)
                == if y < sky_rows(camera.horizon_line(), height as int) {
                sky_pixel(y, camera.horizon_line())
            } else {
                pixel_at(old(frame)@, width as int, x, y)
            },
{
    let line = camera.horizon_line_exec();
    let rows: i64 = if line < height as i64 {
        line
    } else {
        height as i64
    };
    let ghost f0 = frame@;
    let mut y: i64 = 0;
    while y < rows
        invariant
            0 <= y <= rows,
            rows == sky_rows(line as int, height as int),
            line == camera.horizon_line(),
            0 <= line < 0x100_0000,
            height <= MAX_SCREEN_SIDE,
            frame@.len() == width * height * 4,
            f0.len() == width * height * 4,
            forall|x2: int, y2: int|
                0 <= x2 < width && 0 <= y2 < height ==> #[trigger] pixel_at(frame@, width as int, x2, y2)
                    == if y2 < y {
                    sky_pixel(y2, line as int)
                } else {
                    pixel_at(f0, width as int, x2, y2)
                },
        decreases rows - y,
    {
        let px = [
            sky_channel_exec(SKY_TOP[0], SKY_BOTTOM[0], y, line),
            sky_channel_exec(SKY_TOP[1], SKY_BOTTOM[1], y, line),
            sky_channel_exec(SKY_TOP[2], SKY_BOTTOM[2], y, line),
            255,
        ];
        assert(px@ =~= sky_pixel(y as int, line as int));
        let ghost f1 = frame@;
        let mut x: usize = 0;
        while x < width
            invariant
                0 <= x <= width,
                0 <= y < rows,
                rows <= height,
                px@ == sky_pixel(y as int, line as int),
                frame@.len() == width * height * 4,
                forall|x2: int, y2: int|
                    0 <= x2 < width && 0 <= y2 < height ==> #[trigger] pixel_at(
                        frame@,
                        width as int,
                        x2,
                        y2,
                    ) == if y2 == y && x2 < x {
                        px@
                    } else {
                        pixel_at(f1, width as int, x2, y2)
                    },
            decreases width - x,
        {
            set_pixel(frame, width, height, x, y as usize, px);
            x += 1;
        }
        y += 1;
    }
}

/// A terrain and the size of the screen it is drawn on.
pub struct Renderer {
    pub width: usize,
    pub height: usize,
    pub terrain: Terrain,
}

impl Renderer {
    pub open spec fn wf(&self) -> bool {
        &&& self.terrain.wf()
        &&& 0 < self.width <= MAX_SCREEN_SIDE
        &&& 0 < self.height <= MAX_SCREEN_SIDE
    }

    /// Checks the screen size and takes the terrain.
    pub fn new(width: usize, height: usize, terrain: Terrain) -> (r: Result<Renderer, ConfigurationError>)
        requires
            terrain.wf(),
        ensures
            (0 < width <= MAX_SCREEN_SIDE && 0 < height <= MAX_SCREEN_SIDE) <==> r is Ok,
            r is Ok ==> r->Ok_0.wf() && r->Ok_0.width == width && r->Ok_0.height == height
                && r->Ok_0.terrain == terrain,
            r is Err ==> r == Err::<Renderer, ConfigurationError>(ConfigurationError::ScreenSize),
    {
        if width == 0 || width > MAX_SCREEN_SIDE || height == 0 || height > MAX_SCREEN_SIDE {
            return Err(ConfigurationError::ScreenSize);
        }
        Ok(Renderer { width, height, terrain })
    }

    /// Screen row of the terrain met by the ray of column `i` at step `k`.
    pub open spec fn proj(&self, cam: Camera, i: int, k: int) -> int {
        let w = self.width as int;
        cam.project(self.terrain.height_at(cam.map_x(i, w, k), cam.map_y(i, w, k)), 2 * k + 1)
    }

    /// The occlusion threshold of column `i` after `k` steps: the top of
    /// what is drawn so far, starting at the bottom edge of the screen.
    pub open spec fn tallest(&self, cam: Camera, i: int, k: int) -> int
        decreases k,
    {
        if k <= 0 {
            self.height as int
        } else {
            let t = self.tallest(cam, i, k - 1);
            let p = self.proj(cam, i, k - 1);
            if p < t {
                p
            } else {
                t
            }
        }
    }

    /// The first step at or after `k` whose terrain reaches row `y` of
    /// column `i`, if any.
    pub open spec fn first_hit(&self, cam: Camera, i: int, y: int, k: int) -> Option<int>
        decreases cam.march_steps() - k,
    {
        if k < 0 || k >= cam.march_steps() {
            None
        } else if self.proj(cam, i, k) <= y {
            Some(k)
        } else {
            self.first_hit(cam, i, y, k + 1)
        }
    }

    /// The opaque terrain color met by the ray of column `i` at step `k`.
    pub open spec fn terrain_pixel(&self, cam: Camera, i: int, k: int) -> Seq<u8> {
        let w = self.width as int;
        let (mx, my) = (cam.map_x(i, w, k), cam.map_y(i, w, k));
        seq![
            self.terrain.channel_at(mx, my, 0) as u8,
            self.terrain.channel_at(mx, my, 1) as u8,
            self.terrain.channel_at(mx, my, 2) as u8,
            255u8,
        ]
    }

    /// Rows painted at step `k` of column `i`: from the projected row (or the
    /// top edge) down to the threshold left by the earlier steps; empty
    /// (start equal to end) when that step is hidden.
    pub open spec fn span(&self, cam: Camera, i: int, k: int) -> (int, int) {
        let t = self.tallest(cam, i, k);
        let p = self.proj(cam, i, k);
        if p < t {
            (if p < 0 {
                0
            } else {
                p
            }, t)
        } else {
            (t, t)
        }
    }

    /// What pixel `(i, y)` of a rendered frame holds: the nearest terrain that
    /// reaches it, else the sky above the horizon line, else black.
    pub open spec fn expected_pixel(&self, cam: Camera, i: int, y: int) -> Seq<u8> {
        match self.first_hit(cam, i, y, 0) {
            Some(k) => self.terrain_pixel(cam, i, k),
            None => if y < sky_rows(cam.horizon_line(), self.height as int) {
                sky_pixel(y, cam.horizon_line())
            } else {
                void_pixel()
            },
        }
    }

    /// Renders one frame seen from `cam` into `frame`, row-major RGBA: the
    /// sky gradient above the horizon line, then the terrain column by
    /// column. Every pixel ends up as `expected_pixel` says. A frame of the
    /// wrong size is refused and left untouched.
    pub fn draw(&self, frame: &mut Vec<u8>, cam: &Camera) -> (r: Result<(), ConfigurationError>)
        requires
            self.wf(),
        ensures
            (old(frame)@.len() == self.width * self.height * 4) <==> r is Ok,
            r is Err ==> r == Err::<(), ConfigurationError>(ConfigurationError::FrameSize)
                && final(frame)@ == old(frame)@,
            r is Ok ==> final(frame)@.len() == old(frame)@.len(),
            r is Ok ==> forall|x: int, y: int|
                0 <= x < self.width && 0 <= y < self.height ==> #[trigger] pixel_at(
                    final(frame)@,
                    self.width as int,
                    x,
                    y,
                ) == self.expected_pixel(*cam, x, y),
    {
        let w = self.width;
        let h = self.height;
        proof {
            assert((w as u64) * (h as u64) * 4 <= 0x4_0000_0000) by (nonlinear_arith)
                requires
                    w <= 0x1_0000,
                    h <= 0x1_0000,
            ;
        }
        if frame.len() as u64 != (w as u64) * (h as u64) * 4 {
            return Err(ConfigurationError::FrameSize);
        }
        fill_sky(frame, w, h, cam);
        let ghost sky = frame@;
        let steps = cam.march_steps_exec();
        let line = cam.horizon_line_exec();
        let mut i: usize = 0;
        while i < w
            invariant
                self.wf(),
                w == self.width,
                h == self.height,
                0 <= i <= w,
                steps == cam.march_steps(),
                0 <= steps <= 150,
                line == cam.horizon_line(),
                frame@.len() == w * h * 4,
                sky.len() == w * h * 4,
                forall|x: int, y: int|
                    0 <= x < w && 0 <= y < h ==> #[trigger] pixel_at(frame@, w as int, x, y) == if x
                        < i {
                        self.expected_pixel(*cam, x, y)
                    } else {
                        pixel_at(sky, w as int, x, y)
                    },
                forall|x: int, y: int|
                    0 <= x < w && 0 <= y < sky_rows(line as int, h as int) ==> #[trigger] pixel_at(
                        sky,
                        w as int,
                        x,
                        y,
                    ) == sky_pixel(y, line as int),
            decreases w - i,
        {
            proof {
                assert forall|y: int| 0 <= y < sky_rows(line as int, h as int) implies #[trigger] pixel_at(
                    frame@,
                    w as int,
                    i as int,
                    y,
                ) == sky_pixel(y, line as int) by {
                    assert(pixel_at(sky, w as int, i as int, y) == sky_pixel(y, line as int));
                }
            }
            self.draw_column(frame, cam, i, steps, line);
            i += 1;
        }
        Ok(())
    }

    /// Marches the ray of column `i` and draws the column over a frame whose
    /// sky is already painted; other columns are left as they were.
    fn draw_column(&self, frame: &mut Vec<u8>, cam: &Camera, i: usize, steps: i64, line: i64)
        requires
            self.wf(),
            i < self.width,
            old(frame)@.len() == self.width * self.height * 4,
            steps == cam.march_steps(),
            0 <= steps <= 150,
            line == cam.horizon_line(),
            forall|y: int|
                0 <= y < sky_rows(line as int, self.height as int) ==> #[trigger] pixel_at(
                    old(frame)@,
                    self.width as int,
                    i as int,
                    y,
                ) == sky_pixel(y, line as int),
        ensures
            final(frame)@.len() == old(frame)@.len(),
            forall|y: int|
                0 <= y < self.height ==> #[trigger] pixel_at(final(frame)@, self.width as int, i as int, y)
                    == self.expected_pixel(*cam, i as int, y),
            forall|x: int, y: int|
                0 <= x < self.width && 0 <= y < self.height && x != i ==> #[trigger] pixel_at(
                    final(frame)@,
                    self.width as int,
                    x,
                    y,
                ) == pixel_at(old(frame)@, self.width as int, x, y),
    {
        let w = self.width;
        let h = self.height;
        let wi = w as i64;
        let c = cam.cos_angle as i64;
        let s = cam.sin_angle as i64;
        proof {
            assert(-0x2_0000_0000 < (c + s) * wi < 0x2_0000_0000 && -0x2_0000_0000 < 2 * s * (
            i as i64) < 0x2_0000_0000 && -0x2_0000_0000 < (s - c) * wi < 0x2_0000_0000
                && -0x2_0000_0000 < 2 * c * (i as i64) < 0x2_0000_0000) by (nonlinear_arith)
                requires
                    -0x8000 <= c < 0x8000,
                    -0x8000 <= s < 0x8000,
                    0 < wi <= 0x1_0000,
                    0 <= i < wi,
            ;
            assert(-0x4_0000_0000 < (c + s) * wi - 2 * s * (i as i64) < 0x4_0000_0000)
                by (nonlinear_arith)
                requires
                    -0x8000 <= c < 0x8000,
                    -0x8000 <= s < 0x8000,
                    0 < wi <= 0x1_0000,
                    0 <= i < wi,
            ;
            assert(-0x4_0000_0000 < (s - c) * wi + 2 * c * (i as i64) < 0x4_0000_0000)
                by (nonlinear_arith)
                requires
                    -0x8000 <= c < 0x8000,
                    -0x8000 <= s < 0x8000,
                    0 < wi <= 0x1_0000,
                    0 <= i < wi,
            ;
        }
        let dx = (c + s) * wi - 2 * s * (i as i64);
        let dy = (s - c) * wi + 2 * c * (i as i64);
        let cx = cam.x as i64;
        let cy = cam.y as i64;
        proof {
            assert(-0x1_0000_0000_0000 < cx * wi < 0x1_0000_0000_0000) by (nonlinear_arith)
                requires
                    -0x8000_0000 <= cx < 0x8000_0000,
                    0 < wi <= 0x1_0000,
            ;
            assert(-0x1_0000_0000_0000 < cy * wi < 0x1_0000_0000_0000) by (nonlinear_arith)
                requires
                    -0x8000_0000 <= cy < 0x8000_0000,
                    0 < wi <= 0x1_0000,
            ;
        }
        let ox = cx * wi;
        let oy = cy * wi;
        let cell = FIXED_ONE * wi;
        let ghost f0 = frame@;
        let mut tallest: i64 = h as i64;
        let mut k: i64 = 0;
        while k < steps && tallest > 0
            invariant
                self.wf(),
                i < w,
                w == self.width,
                h == self.height,
                wi == w,
                cell == FIXED_ONE * w,
                dx == cam.ray_dx(i as int, w as int),
                dy == cam.ray_dy(i as int, w as int),
                -0x4_0000_0000 < dx < 0x4_0000_0000,
                -0x4_0000_0000 < dy < 0x4_0000_0000,
                ox == cam.x * w,
                oy == cam.y * w,
                -0x1_0000_0000_0000 < ox < 0x1_0000_0000_0000,
                -0x1_0000_0000_0000 < oy < 0x1_0000_0000_0000,
                steps == cam.march_steps(),
                0 <= steps <= 150,
                0 <= k <= steps,
                tallest == self.tallest(*cam, i as int, k as int),
                tallest <= h,
                frame@.len() == w * h * 4,
                f0.len() == w * h * 4,
                forall|y: int|
                    0 <= y < h && tallest <= y ==> #[trigger] pixel_at(frame@, w as int, i as int, y)
                        == self.expected_pixel(*cam, i as int, y),
                forall|y: int|
                    0 <= y < h && y < tallest ==> #[trigger] pixel_at(frame@, w as int, i as int, y)
                        == pixel_at(f0, w as int, i as int, y),
                forall|x: int, y: int|
                    0 <= x < w && 0 <= y < h && x != i ==> #[trigger] pixel_at(frame@, w as int, x, y)
                        == pixel_at(f0, w as int, x, y),
            decreases steps - k,
        {
            proof {
                assert(-0x10_0000_0000_0000 < 4 * (k + 1) * dx < 0x10_0000_0000_0000)
                    by (nonlinear_arith)
                    requires
                        0 <= k < 150,
                        -0x4_0000_0000 < dx < 0x4_0000_0000,
                ;
                assert(-0x10_0000_0000_0000 < 4 * (k + 1) * dy < 0x10_0000_0000_0000)
                    by (nonlinear_arith)
                    requires
                        0 <= k < 150,
                        -0x4_0000_0000 < dy < 0x4_0000_0000,
                ;
            }
            let mx = floor_div(ox + 4 * (k + 1) * dx, cell);
            let my = floor_div(oy + 4 * (k + 1) * dy, cell);
            let ground = self.terrain.height_cell(mx, my);
            let p = cam.project_exec(ground, k);
            proof {
                lemma_tallest_tracks_hits_all(*self, *cam, i as int, k as int + 1);
                lemma_tallest_tracks_hits_all(*self, *cam, i as int, k as int);
            }
            if p < tallest {
                let color = self.terrain.color_cell(mx, my);
                let px = [color[0], color[1], color[2], 255];
                assert(px@ =~= self.terrain_pixel(*cam, i as int, k as int));
                let start: i64 = if p < 0 {
                    0
                } else {
                    p
                };
                let ghost f1 = frame@;
                let mut y: i64 = start;
                while y < tallest
                    invariant
                        self.wf(),
                        i < w,
                        w == self.width,
                        h == self.height,
                        0 <= start <= y <= tallest,
                        tallest <= h,
                        frame@.len() == w * h * 4,
                        forall|y2: int|
                            0 <= y2 < h ==> #[trigger] pixel_at(frame@, w as int, i as int, y2) == if start
                                <= y2 < y {
                                px@
                            } else {
                                pixel_at(f1, w as int, i as int, y2)
                            },
                        forall|x: int, y2: int|
                            0 <= x < w && 0 <= y2 < h && x != i ==> #[trigger] pixel_at(
                                frame@,
                                w as int,
                                x,
                                y2,
                            ) == pixel_at(f1, w as int, x, y2),
                    decreases tallest - y,
                {
                    set_pixel(frame, w, h, i, y as usize, px);
                    y += 1;
                }
                tallest = p;
            }
            k += 1;
        }
        proof {
            lemma_tallest_tracks_hits_all(*self, *cam, i as int, k as int);
        }
        let rows: i64 = if line < h as i64 {
            line
        } else {
            h as i64
        };
        if rows < tallest {
            let ghost f2 = frame@;
            let mut y: i64 = rows;
            while y < tallest
                invariant
                    self.wf(),
                    i < w,
                    w == self.width,
                    h == self.height,
                    0 <= rows <= y <= tallest,
                    tallest <= h,
                    frame@.len() == w * h * 4,
                    forall|y2: int|
                        0 <= y2 < h ==> #[trigger] pixel_at(frame@, w as int, i as int, y2) == if rows <= y2
                            < y {
                            void_pixel()
                        } else {
                            pixel_at(f2, w as int, i as int, y2)
                        },
                    forall|x: int, y2: int|
                        0 <= x < w && 0 <= y2 < h && x != i ==> #[trigger] pixel_at(
                            frame@,
                            w as int,
                            x,
                            y2,
                        ) == pixel_at(f2, w as int, x, y2),
                decreases tallest - y,
            {
                set_pixel(frame, w, h, i, y as usize, [0, 0, 0, 255]);
                assert([0u8, 0u8, 0u8, 255u8]@ =~= void_pixel());
                y += 1;
            }
        }
    }
}

/// Row `y` is still open after `k` steps (it lies above the occlusion
/// threshold) exactly when none of the first `k` steps reached it; rows at
/// or below the threshold were settled by one of those steps.
pub proof fn lemma_tallest_tracks_hits(r: Renderer, cam: Camera, i: int, y: int, k: int)
    requires
        0 <= k <= cam.march_steps(),
        0 <= y < r.height,
    ensures
        y < r.tallest(cam, i, k) ==> r.first_hit(cam, i, y, 0) == r.first_hit(cam, i, y, k),
        r.tallest(cam, i, k) <= y ==> r.first_hit(cam, i, y, 0) is Some && r.first_hit(
            cam,
            i,
            y,
            0,
        )->0 < k,
    decreases k,
{
    if k > 0 {
        lemma_tallest_tracks_hits(r, cam, i, y, k - 1);
    }
}

proof fn lemma_tallest_tracks_hits_all(r: Renderer, cam: Camera, i: int, k: int)
    requires
        0 <= k <= cam.march_steps(),
    ensures
        forall|y: int|
            0 <= y < r.height && y < r.tallest(cam, i, k) ==> #[trigger] r.first_hit(cam, i, y, 0)
                == r.first_hit(cam, i, y, k),
        forall|y: int|
            0 <= y < r.height && r.tallest(cam, i, k) <= y ==> #[trigger] r.first_hit(cam, i, y, 0)
                is Some && r.first_hit(cam, i, y, 0)->0 < k,
{
    assert forall|y: int| 0 <= y < r.height && y < r.tallest(cam, i, k) implies #[trigger] r.first_hit(
        cam,
        i,
        y,
        0,
    ) == r.first_hit(cam, i, y, k) by {
        lemma_tallest_tracks_hits(r, cam, i, y, k);
    }
    assert forall|y: int| 0 <= y < r.height && r.tallest(cam, i, k) <= y implies #[trigger] r.first_hit(
        cam,
        i,
        y,
        0,
    ) is Some && r.first_hit(cam, i, y, 0)->0 < k by {
        lemma_tallest_tracks_hits(r, cam, i, y, k);
    }
}

/// Within a column the spans only climb: the threshold never moves down, each
/// span ends at or above where the one before it started, and once the
/// threshold reaches the top row no later step paints or decides any pixel.
pub proof fn lemma_column_spans(r: Renderer, cam: Camera, i: int, k: int)
    requires
        0 <= k,
    ensures
        r.tallest(cam, i, k + 1) <= r.tallest(cam, i, k),
        r.span(cam, i, k + 1).1 <= r.span(cam, i, k).0 || r.span(cam, i, k).0 >= r.span(cam, i, k).1,
        r.tallest(cam, i, k) <= 0 ==> r.span(cam, i, k).0 >= r.span(cam, i, k).1,
        (k <= cam.march_steps() && r.tallest(cam, i, k) <= 0) ==> forall|y: int|
            0 <= y < r.height ==> #[trigger] r.first_hit(cam, i, y, 0) is Some && r.first_hit(
                cam,
                i,
                y,
                0,
            )->0 < k,
{
    assert(r.tallest(cam, i, k + 1) == r.span(cam, i, k + 1).1);
    if k <= cam.march_steps() {
        lemma_tallest_tracks_hits_all(r, cam, i, k);
    }
}

/// Rows above the horizon line get the sky: none when the horizon sits at or
/// above the top edge, all when it sits at or below the bottom edge. The
/// gradient starts at the top color in row 0 and ends at the bottom color at
/// the horizon line itself.
pub proof fn lemma_sky_extent(cam: Camera, h: int)
    requires
        0 < h,
    ensures
        cam.horizon <= 0 ==> sky_rows(cam.horizon_line(), h) == 0,
        cam.horizon >= h * FIXED_ONE ==> sky_rows(cam.horizon_line(), h) == h,
        cam.horizon_line() > 0 ==> sky_pixel(0, cam.horizon_line()) == seq![
            SKY_TOP[0],
            SKY_TOP[1],
            SKY_TOP[2],
            255u8,
        ],
        cam.horizon_line() > 0 ==> seq![
            sky_channel(135, 70, cam.horizon_line(), cam.horizon_line()) as u8,
            sky_channel(206, 130, cam.horizon_line(), cam.horizon_line()) as u8,
            sky_channel(235, 180, cam.horizon_line(), cam.horizon_line()) as u8,
            255u8,
        ] == seq![SKY_BOTTOM[0], SKY_BOTTOM[1], SKY_BOTTOM[2], 255u8],
{
    let hz = cam.horizon as int;
    if hz <= 0 {
        assert(-2 * hz + 256 >= 0);
        assert((-2 * hz + 256) / 512 >= 0);
    }
    if hz >= h * FIXED_ONE {
        assert((2 * hz + 256) / 512 >= h) by (nonlinear_arith)
            requires
                hz >= h * 256,
        ;
    }
    let l = cam.horizon_line();
    if l > 0 {
        assert((135 * l) / l == 135 && (206 * l) / l == 206 && (235 * l) / l == 235) by (
        nonlinear_arith)
            requires
                l > 0,
        ;
        assert((70 * l) / l == 70 && (130 * l) / l == 130 && (180 * l) / l == 180) by (
        nonlinear_arith)
            requires
                l > 0,
        ;
        assert(sky_pixel(0, l) =~= seq![SKY_TOP[0], SKY_TOP[1], SKY_TOP[2], 255u8]);
        assert(seq![
            sky_channel(135, 70, l, l) as u8,
            sky_channel(206, 130, l, l) as u8,
            sky_channel(235, 180, l, l) as u8,
            255u8,
        ] =~= seq![SKY_BOTTOM[0], SKY_BOTTOM[1], SKY_BOTTOM[2], 255u8]);
    }
}

/// A frame is fixed byte for byte by its pixels: two frames of the right
/// size that both hold `expected_pixel` everywhere are equal, so drawing the
/// same view twice gives identical bytes.
pub proof fn lemma_frame_determined(r: Renderer, cam: Camera, f1: Seq<u8>, f2: Seq<u8>)
    requires
        r.wf(),
        f1.len() == r.width * r.height * 4,
        f2.len() == r.width * r.height * 4,
        forall|x: int, y: int|
            0 <= x < r.width && 0 <= y < r.height ==> #[trigger] pixel_at(f1, r.width as int, x, y)
                == r.expected_pixel(cam, x, y),
        forall|x: int, y: int|
            0 <= x < r.width && 0 <= y < r.height ==> #[trigger] pixel_at(f2, r.width as int, x, y)
                == r.expected_pixel(cam, x, y),
    ensures
        f1 == f2,
{
    let w = r.width as int;
    let h = r.height as int;
    assert forall|b: int| 0 <= b < f1.len() implies f1[b] == f2[b] by {
        let q = b / 4;
        let x = q % w;
        let y = q / w;
        assert(b == 4 * q + b % 4 && 0 <= b % 4 < 4);
        assert(q == y * w + x && 0 <= x < w && 0 <= y) by (nonlinear_arith)
            requires
                x == q % w,
                y == q / w,
                w > 0,
                q >= 0,
        ;
        assert(q < w * h);
        assert(y < h) by (nonlinear_arith)
            requires
                q == y * w + x,
                0 <= x,
                0 <= y,
                w > 0,
                q < w * h,
        ;
        assert(pixel_at(f1, w, x, y) == pixel_at(f2, w, x, y));
        assert(pixel_at(f1, w, x, y)[b % 4] == f1[b]);
        assert(pixel_at(f2, w, x, y)[b % 4] == f2[b]);
    }
    assert(f1 =~= f2);
}

} // verus!
