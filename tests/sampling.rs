use voxel_space::{get_color_interpolated, get_height_interpolated, ConfigurationError, Terrain, FIXED_ONE};

fn ramp_terrain() -> Terrain {
    // 4 x 4 map: height = 10 * x + y, color = (x * 60, y * 60, 255 - x - y)
    let n = 4usize;
    let mut heights = Vec::new();
    let mut colors = Vec::new();
    for y in 0..n {
        for x in 0..n {
            heights.push((10 * x + y) as u8);
            colors.push((x * 60) as u8);
            colors.push((y * 60) as u8);
            colors.push((255 - x - y) as u8);
        }
    }
    Terrain::new(n, heights, colors).unwrap()
}

fn uniform_terrain(n: usize, h: u8, rgb: [u8; 3]) -> Terrain {
    let heights = vec![h; n * n];
    let mut colors = Vec::new();
    for _ in 0..n * n {
        colors.extend_from_slice(&rgb);
    }
    Terrain::new(n, heights, colors).unwrap()
}

#[test]
fn grid_points_return_stored_cells() {
    let t = ramp_terrain();
    let one = FIXED_ONE;
    for y in 0..4i64 {
        for x in 0..4i64 {
            let h = get_height_interpolated(x * one, y * one, &t);
            assert_eq!(h, ((10 * x + y) as u32) * 256 * 256);
            let c = get_color_interpolated(x * one, y * one, &t);
            assert_eq!(c, [(x * 60) as u8, (y * 60) as u8, (255 - x - y) as u8]);
        }
    }
}

#[test]
fn sampling_wraps_around_the_map() {
    let t = ramp_terrain();
    let side = 4 * FIXED_ONE;
    let points = [(0i64, 0i64), (77, 300), (-5, 913), (1023, -1), (640, 129)];
    for &(x, y) in points.iter() {
        let h = get_height_interpolated(x, y, &t);
        assert_eq!(get_height_interpolated(x + side, y, &t), h);
        assert_eq!(get_height_interpolated(x, y + side, &t), h);
        assert_eq!(get_height_interpolated(x - 3 * side, y, &t), h);
        let c = get_color_interpolated(x, y, &t);
        assert_eq!(get_color_interpolated(x + side, y, &t), c);
        assert_eq!(get_color_interpolated(x, y + side, &t), c);
    }
}

#[test]
fn negative_coordinates_wrap_to_the_far_edge() {
    let t = ramp_terrain();
    // (-1, -1) is cell (3, 3)
    assert_eq!(get_height_interpolated(-FIXED_ONE, -FIXED_ONE, &t), 33 * 65536);
    assert_eq!(get_color_interpolated(-FIXED_ONE, -FIXED_ONE, &t), [180, 180, 249]);
}

#[test]
fn height_blends_between_cells() {
    let t = ramp_terrain();
    // halfway between x = 0 and x = 1 on row 0: heights 0 and 10 -> 5
    assert_eq!(get_height_interpolated(128, 0, &t), 5 * 65536);
    // a quarter into both axes from cell (1, 1): 11, 21, 12, 22
    // 11 * 0.75 * 0.75 + 21 * 0.25 * 0.75 + 12 * 0.75 * 0.25 + 22 * 0.25 * 0.25 = 13.75
    assert_eq!(get_height_interpolated(256 + 64, 256 + 64, &t), 13 * 65536 + 49152);
    // across the seam: x = 3.5 blends cell 3 (30) with cell 0 (0)
    assert_eq!(get_height_interpolated(3 * 256 + 128, 0, &t), 15 * 65536);
}

#[test]
fn color_blends_truncate() {
    let t = uniform_terrain(2, 0, [0, 0, 0]);
    let mut colors = vec![0u8; 12];
    colors[3] = 255; // cell (1, 0) red channel
    colors[4] = 1;
    let t2 = Terrain::new(2, vec![0; 4], colors).unwrap();
    // halfway: 255 / 2 = 127.5 -> 127, 1 / 2 = 0.5 -> 0
    assert_eq!(get_color_interpolated(128, 0, &t2), [127, 0, 0]);
    assert_eq!(get_color_interpolated(128, 0, &t), [0, 0, 0]);
    // both axes halfway: row 0 gives 127, row 1 gives 0, then 63.5 -> 63
    assert_eq!(get_color_interpolated(128, 128, &t2), [63, 0, 0]);
}

#[test]
fn color_blend_truncates_once() {
    // one channel holds 1, 2 / 2, 3; the centre blends to exactly 2
    let colors = vec![1, 1, 1, 2, 2, 2, 2, 2, 2, 3, 3, 3];
    let t = Terrain::new(2, vec![0; 4], colors).unwrap();
    assert_eq!(get_color_interpolated(128, 128, &t), [2, 2, 2]);
    // a quarter of the way: 1.25 * 0.75 + 2.25 * 0.25 = 1.5 -> 1
    assert_eq!(get_color_interpolated(64, 64, &t), [1, 1, 1]);
}

#[test]
fn periodicity_holds_near_the_coordinate_limit() {
    let t = ramp_terrain();
    let side = 4 * FIXED_ONE;
    let x = i64::MAX - side;
    assert_eq!(get_height_interpolated(x + side, 77, &t), get_height_interpolated(x, 77, &t));
    assert_eq!(get_color_interpolated(5, x + side, &t), get_color_interpolated(5, x, &t));
}

#[test]
fn terrain_size_errors() {
    assert_eq!(Terrain::new(0, vec![], vec![]).err(), Some(ConfigurationError::MapSize));
    assert_eq!(Terrain::new(2, vec![0; 3], vec![0; 12]).err(), Some(ConfigurationError::HeightGridSize));
    assert_eq!(Terrain::new(2, vec![0; 4], vec![0; 11]).err(), Some(ConfigurationError::ColorGridSize));
    assert!(Terrain::new(2, vec![0; 4], vec![0; 12]).is_ok());
}
