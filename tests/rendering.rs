use voxel_space::{fill_sky, Camera, ConfigurationError, Renderer, Terrain, FIXED_ONE, SKY_BOTTOM, SKY_TOP};

fn uniform_renderer(w: usize, h: usize, height: u8, rgb: [u8; 3]) -> Renderer {
    let n = 8usize;
    let heights = vec![height; n * n];
    let mut colors = Vec::new();
    for _ in 0..n * n {
        colors.extend_from_slice(&rgb);
    }
    let terrain = Terrain::new(n, heights, colors).unwrap();
    Renderer::new(w, h, terrain).unwrap()
}

fn camera(height: i32, horizon: i32, zfar: i32) -> Camera {
    let one = FIXED_ONE as i32;
    Camera {
        x: 4 * one,
        y: 4 * one,
        height: height * one,
        horizon: horizon * one,
        zfar: zfar * one,
        cos_angle: 256,
        sin_angle: 0,
    }
}

fn pixel(frame: &[u8], w: usize, x: usize, y: usize) -> [u8; 4] {
    let i = (y * w + x) * 4;
    [frame[i], frame[i + 1], frame[i + 2], frame[i + 3]]
}

fn sky(y: u64, line: u64) -> [u8; 4] {
    let ch = |a: u8, b: u8| ((a as u64 * (line - y) + b as u64 * y) / line) as u8;
    [ch(SKY_TOP[0], SKY_BOTTOM[0]), ch(SKY_TOP[1], SKY_BOTTOM[1]), ch(SKY_TOP[2], SKY_BOTTOM[2]), 255]
}

#[test]
fn flat_ground_renders_a_green_band() {
    let (w, h) = (16usize, 576usize);
    let r = uniform_renderer(w, h, 128, [0, 255, 0]);
    let cam = camera(200, 100, 600);
    let mut frame = vec![7u8; w * h * 4];
    assert_eq!(r.draw(&mut frame, &cam), Ok(()));
    // the farthest step is at depth 299: round((200 - 128) / 299 * 50 + 100) = 112
    let top = ((200.0f64 - 128.0) / 299.0 * 50.0 + 100.0).round() as usize;
    assert_eq!(top, 112);
    for x in 0..w {
        for y in 0..h {
            let p = pixel(&frame, w, x, y);
            if y >= top {
                assert_eq!(p, [0, 255, 0, 255], "terrain at ({}, {})", x, y);
            } else if y < 100 {
                assert_eq!(p, sky(y as u64, 100), "sky at ({}, {})", x, y);
            } else {
                assert_eq!(p, [0, 0, 0, 255], "gap at ({}, {})", x, y);
            }
        }
    }
    assert_eq!(pixel(&frame, w, 0, 0), [135, 206, 235, 255]);
}

#[test]
fn camera_below_the_ground_fills_the_screen() {
    let (w, h) = (8usize, 64usize);
    let r = uniform_renderer(w, h, 255, [10, 20, 30]);
    let cam = camera(10, 30, 600);
    let mut frame = vec![0u8; w * h * 4];
    assert_eq!(r.draw(&mut frame, &cam), Ok(()));
    for x in 0..w {
        for y in 0..h {
            assert_eq!(pixel(&frame, w, x, y), [10, 20, 30, 255]);
        }
    }
}

#[test]
fn zero_render_distance_draws_only_sky() {
    let (w, h) = (4usize, 20usize);
    let r = uniform_renderer(w, h, 0, [1, 2, 3]);
    let cam = camera(100, 10, 0);
    let mut frame = vec![9u8; w * h * 4];
    assert_eq!(r.draw(&mut frame, &cam), Ok(()));
    for x in 0..w {
        for y in 0..h {
            let expected = if y < 10 { sky(y as u64, 10) } else { [0, 0, 0, 255] };
            assert_eq!(pixel(&frame, w, x, y), expected);
        }
    }
}

#[test]
fn negative_render_distance_and_horizon_do_not_fail() {
    let (w, h) = (4usize, 20usize);
    let r = uniform_renderer(w, h, 50, [1, 2, 3]);
    let cam = camera(-40, -30, -600);
    let mut frame = vec![9u8; w * h * 4];
    assert_eq!(r.draw(&mut frame, &cam), Ok(()));
    assert!(frame.chunks(4).all(|p| p == [0, 0, 0, 255]));
}

#[test]
fn drawing_twice_gives_identical_bytes() {
    let n = 16usize;
    let mut heights = Vec::new();
    let mut colors = Vec::new();
    for i in 0..n * n {
        heights.push(((i * 37) % 251) as u8);
        colors.extend_from_slice(&[(i % 256) as u8, ((i * 7) % 256) as u8, ((i * 13) % 256) as u8]);
    }
    let terrain = Terrain::new(n, heights, colors).unwrap();
    let r = Renderer::new(32, 48, terrain).unwrap();
    let cam = Camera { x: 1000, y: -2000, height: 150 * 256, horizon: 20 * 256, zfar: 300 * 256, cos_angle: 181, sin_angle: -181 };
    let mut a = vec![0u8; 32 * 48 * 4];
    let mut b = vec![255u8; 32 * 48 * 4];
    r.draw(&mut a, &cam).unwrap();
    r.draw(&mut b, &cam).unwrap();
    assert_eq!(a, b);
}

#[test]
fn wrong_frame_size_is_refused() {
    let r = uniform_renderer(4, 4, 0, [0, 0, 0]);
    let mut frame = vec![5u8; 63];
    assert_eq!(r.draw(&mut frame, &camera(10, 2, 100)), Err(ConfigurationError::FrameSize));
    assert_eq!(frame, vec![5u8; 63]);
}

#[test]
fn bad_screen_size_is_refused() {
    let t = Terrain::new(1, vec![0], vec![0, 0, 0]).unwrap();
    assert_eq!(Renderer::new(0, 10, t).err(), Some(ConfigurationError::ScreenSize));
    let t = Terrain::new(1, vec![0], vec![0, 0, 0]).unwrap();
    assert_eq!(Renderer::new(10, 70000, t).err(), Some(ConfigurationError::ScreenSize));
}

#[test]
fn sky_with_horizon_at_top_paints_nothing() {
    let (w, h) = (3usize, 5usize);
    let mut frame = vec![1u8; w * h * 4];
    fill_sky(&mut frame, w, h, &camera(0, 0, 0));
    assert_eq!(frame, vec![1u8; w * h * 4]);
}

#[test]
fn sky_with_horizon_below_screen_paints_every_row() {
    let (w, h) = (3usize, 5usize);
    let mut frame = vec![1u8; w * h * 4];
    fill_sky(&mut frame, w, h, &camera(0, 8, 0));
    for y in 0..h {
        for x in 0..w {
            assert_eq!(pixel(&frame, w, x, y), sky(y as u64, 8));
        }
    }
    assert_eq!(pixel(&frame, w, 0, 0), [SKY_TOP[0], SKY_TOP[1], SKY_TOP[2], 255]);
    // row 4 of 8: halfway, (135 + 70) / 2 = 102.5 -> 102
    assert_eq!(pixel(&frame, w, 0, 4), [102, 168, 207, 255]);
}

#[test]
fn sky_gradient_approaches_bottom_color() {
    let (w, h) = (1usize, 200usize);
    let mut frame = vec![0u8; w * h * 4];
    fill_sky(&mut frame, w, h, &camera(0, 200, 0));
    // row 199 of 200: t = 0.995
    assert_eq!(pixel(&frame, w, 0, 199), [70, 130, 180, 255]);
}

#[test]
fn view_endpoints_follow_the_heading() {
    let cam = camera(0, 0, 600);
    let z = 600i64 * 256;
    assert_eq!(cam.view_endpoints(), ((256 * z, -256 * z), (256 * z, 256 * z)));
    let turned = Camera { cos_angle: 0, sin_angle: 256, ..cam };
    assert_eq!(turned.view_endpoints(), ((256 * z, 256 * z), (-256 * z, 256 * z)));
}
