use robosim::ascii::CharGrid;
use robosim::canvas::RgbCanvas;
use robosim::gpu::{GpuBackendStub, TargetOs};
use robosim::render::RenderOutput;
use robosim::sensors::{
    box_color, circle_color, floor_color, lidar_noise_seed, render_camera_image, sky_color,
    CameraColumn,
};
use robosim::sim::{camera_frame_due, wheel_joint_names};

const BG: [u8; 3] = [24, 24, 28];

fn pixel(rgb: &[u8], w: usize, x: usize, y: usize) -> [u8; 3] {
    let i = (y * w + x) * 3;
    [rgb[i], rgb[i + 1], rgb[i + 2]]
}

#[test]
fn camera_image_has_three_bytes_per_pixel() {
    let cols = vec![
        CameraColumn {
            hit: false,
            wall_height: 0,
            wall_color: [1, 2, 3],
        };
        64
    ];
    let img = render_camera_image((1, 5), 64, 48, &cols);
    assert_eq!(img.data.len(), 64 * 48 * 3);
    assert_eq!(img.encoding, "rgb8");
    assert_eq!((img.width, img.height), (64, 48));
    assert_eq!(img.stamp, (1, 5));
}

#[test]
fn camera_columns_show_sky_wall_and_floor() {
    // Column 0: a wall 2 rows high in a 6-row image covers rows 2 and 3.
    // Column 1: no wall; sky above the middle row, floor from it on.
    let cols = vec![
        CameraColumn {
            hit: true,
            wall_height: 2,
            wall_color: [9, 8, 7],
        },
        CameraColumn {
            hit: false,
            wall_height: 0,
            wall_color: [9, 8, 7],
        },
    ];
    let img = render_camera_image((0, 0), 2, 6, &cols);
    let sky = sky_color();
    let floor = floor_color();
    assert_eq!(sky, [135, 206, 250]);
    assert_eq!(floor, [96, 96, 96]);
    let col0: Vec<[u8; 3]> = (0..6).map(|y| pixel(&img.data, 2, 0, y)).collect();
    assert_eq!(col0, vec![sky, sky, [9, 8, 7], [9, 8, 7], floor, floor]);
    let col1: Vec<[u8; 3]> = (0..6).map(|y| pixel(&img.data, 2, 1, y)).collect();
    assert_eq!(col1, vec![sky, sky, sky, floor, floor, floor]);
}

#[test]
fn camera_full_height_wall_fills_column() {
    let cols = vec![CameraColumn {
        hit: true,
        wall_height: 5,
        wall_color: [1, 1, 1],
    }];
    let img = render_camera_image((0, 0), 1, 5, &cols);
    for y in 0..5 {
        assert_eq!(pixel(&img.data, 1, 0, y), [1, 1, 1]);
    }
    let cols = vec![CameraColumn {
        hit: true,
        wall_height: 3,
        wall_color: [2, 2, 2],
    }];
    let img = render_camera_image((0, 0), 1, 6, &cols);
    // The band starts at (6 - 3) / 2 = 1 and ends before 6 - 1: an odd
    // remainder widens the band by one row.
    let col: Vec<[u8; 3]> = (0..6).map(|y| pixel(&img.data, 1, 0, y)).collect();
    assert_eq!(
        col,
        vec![
            sky_color(),
            [2, 2, 2],
            [2, 2, 2],
            [2, 2, 2],
            [2, 2, 2],
            floor_color()
        ]
    );
}

#[test]
fn obstacle_colours() {
    assert_eq!(box_color(), [200, 80, 60]);
    assert_eq!(circle_color(), [80, 160, 90]);
}

#[test]
fn canvas_clears_to_background() {
    let mut c = RgbCanvas::new();
    assert_eq!((c.width(), c.height()), (0, 0));
    c.begin_frame(200, 200);
    match c.end_frame() {
        RenderOutput::Pixels { width, height, rgb } => {
            assert_eq!((width, height), (200, 200));
            assert_eq!(rgb.len(), 200 * 200 * 3);
            assert!(rgb.chunks(3).all(|p| p == BG));
        }
        _ => panic!("expected pixels"),
    }
}

#[test]
fn canvas_put_ignores_pixels_off_the_canvas() {
    let mut c = RgbCanvas::new();
    c.begin_frame(4, 3);
    c.put(-1, 0, [1, 2, 3]);
    c.put(0, -1, [1, 2, 3]);
    c.put(4, 0, [1, 2, 3]);
    c.put(0, 3, [1, 2, 3]);
    c.put(3, 2, [7, 8, 9]);
    if let RenderOutput::Pixels { rgb, .. } = c.end_frame() {
        for y in 0..3 {
            for x in 0..4 {
                let expect = if (x, y) == (3, 2) { [7, 8, 9] } else { BG };
                assert_eq!(pixel(&rgb, 4, x, y), expect);
            }
        }
    } else {
        panic!("expected pixels");
    }
}

#[test]
fn canvas_disc_is_clipped_and_round() {
    let mut c = RgbCanvas::new();
    c.begin_frame(10, 10);
    c.fill_disc(1, 1, 2, [240, 220, 60]);
    if let RenderOutput::Pixels { rgb, .. } = c.end_frame() {
        for y in 0..10i32 {
            for x in 0..10i32 {
                let (dx, dy) = (x - 1, y - 1);
                let inside = dx * dx + dy * dy <= 4;
                let expect = if inside { [240, 220, 60] } else { BG };
                assert_eq!(pixel(&rgb, 10, x as usize, y as usize), expect, "({x},{y})");
            }
        }
    } else {
        panic!("expected pixels");
    }
}

#[test]
fn canvas_robot_near_view_centre() {
    // A robot disc of one pixel radius drawn at the centre of a 200x200 frame.
    let mut c = RgbCanvas::new();
    c.begin_frame(200, 200);
    c.fill_disc(100, 100, 2, [240, 220, 60]);
    if let RenderOutput::Pixels { rgb, .. } = c.end_frame() {
        assert_eq!(pixel(&rgb, 200, 100, 100), [240, 220, 60]);
        assert_eq!(pixel(&rgb, 200, 102, 100), [240, 220, 60]);
        assert_eq!(pixel(&rgb, 200, 102, 102), BG);
    } else {
        panic!("expected pixels");
    }
}

#[test]
fn ppm_has_header_and_pixels() {
    let mut c = RgbCanvas::new();
    c.begin_frame(12, 3);
    c.put(0, 0, [255, 0, 0]);
    let bytes = c.ppm_bytes();
    let header = b"P6\n12 3\n255\n";
    assert_eq!(&bytes[..header.len()], header);
    assert_eq!(bytes.len(), header.len() + 12 * 3 * 3);
    assert_eq!(&bytes[header.len()..header.len() + 6], &[255, 0, 0, 24, 24, 28]);
    let mut empty = RgbCanvas::new();
    empty.begin_frame(0, 0);
    assert_eq!(empty.ppm_bytes(), b"P6\n0 0\n255\n".to_vec());
    let mut wide = RgbCanvas::new();
    wide.begin_frame(480, 1);
    assert_eq!(&wide.ppm_bytes()[..13], b"P6\n480 1\n255\n");
}

#[test]
fn ascii_grid_has_rows_of_cols() {
    let mut g = CharGrid::new(80, 24);
    g.begin_frame(80, 24);
    g.put(40, 12, '@');
    g.put(80, 0, 'x');
    g.put(-1, 5, 'x');
    if let RenderOutput::Text(s) = g.end_frame() {
        let lines: Vec<&str> = s.lines().collect();
        assert_eq!(lines.len(), 24);
        assert!(lines.iter().all(|l| l.chars().count() == 80));
        assert!(s.contains('@'));
        assert!(!s.contains('x'));
        assert_eq!(lines[12].chars().nth(40), Some('@'));
        assert!(s.ends_with('\n'));
    } else {
        panic!("expected text");
    }
}

#[test]
fn ascii_grid_resizes_on_begin_frame() {
    let mut g = CharGrid::new(2, 2);
    g.put(1, 1, '#');
    g.begin_frame(3, 1);
    assert_eq!((g.cols(), g.rows()), (3, 1));
    if let RenderOutput::Text(s) = g.end_frame() {
        assert_eq!(s, "   \n");
    } else {
        panic!("expected text");
    }
}

#[test]
fn gpu_backend_per_platform() {
    assert_eq!(
        GpuBackendStub::describe(TargetOs::MacOs),
        "metal (planned, not implemented)"
    );
    assert_eq!(
        GpuBackendStub::describe(TargetOs::Windows),
        "dx12 (planned, not implemented)"
    );
    assert_eq!(
        GpuBackendStub::describe(TargetOs::Other),
        "vulkan (planned, not implemented)"
    );
}

#[test]
fn camera_every_n_steps_gating() {
    assert!(!camera_frame_due(0, 0));
    assert!(!camera_frame_due(0, 10));
    assert!(camera_frame_due(1, 5));
    assert!(camera_frame_due(10, 0));
    assert!(camera_frame_due(10, 20));
    assert!(!camera_frame_due(10, 21));
}

#[test]
fn noise_seed_follows_step() {
    assert_eq!(lidar_noise_seed(0), 0x5EED_5EED);
    assert_eq!(lidar_noise_seed(1), 0x5EED_5EEC);
    assert_eq!(lidar_noise_seed(0x5EED_5EED), 0);
}

#[test]
fn joint_names_in_wheel_order() {
    assert_eq!(
        wheel_joint_names(),
        vec!["left_wheel_joint".to_string(), "right_wheel_joint".to_string()]
    );
}

#[test]
fn camera_miss_column_has_no_band() {
    // A column with no hit is flat sky and floor, odd heights included.
    let cols = vec![CameraColumn {
        hit: false,
        wall_height: 0,
        wall_color: [60, 24, 18],
    }];
    let img = render_camera_image((0, 0), 1, 5, &cols);
    let col: Vec<[u8; 3]> = (0..5).map(|y| pixel(&img.data, 1, 0, y)).collect();
    let (sky, floor) = (sky_color(), floor_color());
    assert_eq!(col, vec![sky, sky, floor, floor, floor]);
    let one = render_camera_image((0, 0), 1, 1, &cols);
    assert_eq!(one.data, floor.to_vec());
}

#[test]
fn camera_near_hit_keeps_middle_row() {
    // A hit too close to size has no wall rows, yet its band is the middle
    // row of an image of odd height.
    let cols = vec![CameraColumn {
        hit: true,
        wall_height: 0,
        wall_color: [200, 80, 60],
    }];
    let img = render_camera_image((0, 0), 1, 5, &cols);
    let col: Vec<[u8; 3]> = (0..5).map(|y| pixel(&img.data, 1, 0, y)).collect();
    let (sky, floor) = (sky_color(), floor_color());
    assert_eq!(col, vec![sky, sky, [200, 80, 60], floor, floor]);
    let even = render_camera_image((0, 0), 1, 4, &cols);
    let col: Vec<[u8; 3]> = (0..4).map(|y| pixel(&even.data, 1, 0, y)).collect();
    assert_eq!(col, vec![sky, sky, floor, floor]);
}
