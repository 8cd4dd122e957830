//! The integer side of the sensors: the mock camera's image, which is laid out
//! column by column from the wall height that the ray caster found for each
//! column, and the seed of the lidar's noise stream.

use vstd::prelude::*;
use vstd::string::StringExecFns;
use crate::raster::{rgb_offset, offset_column, offset_row, lemma_rgb_offset_decomposes, lemma_rgb_offset_in_buffer, lemma_rgb_offset_next};

verus! {

/// Minimal RGB image produced by the mock camera.
pub struct Image {
    /// Stamp as (sec, nanosec).
    pub stamp: (i32, u32),
    /// Width in pixels.
    pub width: u32,
    /// Height in pixels.
    pub height: u32,
    /// Always "rgb8".
    pub encoding: String,
    /// RGB pixel data, row-major, `width * height * 3` bytes.
    pub data: Vec<u8>,
}

/// Colour of the sky above the walls.
pub open spec fn sky_rgb() -> Seq<u8> {
    seq![135u8, 206u8, 250u8]
}

/// Colour of the floor below the walls.
pub open spec fn floor_rgb() -> Seq<u8> {
    seq![96u8, 96u8, 96u8]
}

/// Colour of a box obstacle, before shading.
pub open spec fn box_rgb() -> Seq<u8> {
    seq![200u8, 80u8, 60u8]
}

/// Colour of a circular pillar, before shading.
pub open spec fn circle_rgb() -> Seq<u8> {
    seq![80u8, 160u8, 90u8]
}

/// Colour of the sky.
pub fn sky_color() -> (c: [u8; 3])
    ensures
        c@ == sky_rgb(),
{
    let c: [u8; 3] = [135, 206, 250];
    assert(c@ =~= sky_rgb());
    c
}

/// Colour of the floor.
pub fn floor_color() -> (c: [u8; 3])
    ensures
        c@ == floor_rgb(),
{
    let c: [u8; 3] = [96, 96, 96];
    assert(c@ =~= floor_rgb());
    c
}

/// Unshaded colour of box obstacles.
pub fn box_color() -> (c: [u8; 3])
    ensures
        c@ == box_rgb(),
{
    let c: [u8; 3] = [200, 80, 60];
    assert(c@ =~= box_rgb());
    c
}

/// Unshaded colour of circular pillars.
pub fn circle_color() -> (c: [u8; 3])
    ensures
        c@ == circle_rgb(),
{
    let c: [u8; 3] = [80, 160, 90];
    assert(c@ =~= circle_rgb());
    c
}

/// What the ray cast of one image column found: whether the ray hit an
/// obstacle, how many pixel rows the nearest wall covers, and its colour
/// after distance shading.
#[derive(Clone, Copy)]
pub struct CameraColumn {
    /// Did the ray hit an obstacle at all?
    pub hit: bool,
    /// Rows covered by the wall, centred vertically; 0 when the ray missed
    /// or the hit was too close to size.
    pub wall_height: usize,
    /// Shaded wall colour.
    pub wall_color: [u8; 3],
}

/// First row of the wall band in a column `height` rows high.
pub open spec fn wall_top(height: int, wall_height: int) -> int {
    (height - wall_height) / 2
}

/// Channel `k` of row `y` of a camera column: sky above the wall band and
/// floor below it (split at the middle row), the wall colour inside it. A
/// column whose ray hit nothing has no band: only sky and floor. A hit with
/// `wall_height == 0` keeps its band, which in an image of odd height is the
/// middle row.
pub open spec fn camera_channel(height: int, column: CameraColumn, y: int, k: int) -> u8 {
    let top = wall_top(height, column.wall_height as int);
    if !column.hit || y < top || y >= height - top {
        if y < height / 2 {
            sky_rgb()[k]
        } else {
            floor_rgb()[k]
        }
    } else {
        column.wall_color@[k]
    }
}

/// Row `y` of a camera column `height` rows high, written out: a column
/// whose ray hit something shows its wall colour on the rows from
/// `(height - wall_height) / 2` up to, not including,
/// `height - (height - wall_height) / 2`; every other row is sky
/// (135, 206, 250) above the middle row `height / 2` and floor (96, 96, 96)
/// from it down.
pub proof fn lemma_camera_column_rows(height: int, column: CameraColumn, y: int, k: int)
    requires
        0 <= k < 3,
    ensures
        camera_channel(height, column, y, k) == if column.hit && (height - column.wall_height) / 2 <= y && y < height
            - (height - column.wall_height) / 2 {
            column.wall_color@[k]
        } else if y < height / 2 {
            seq![135u8, 206u8, 250u8][k]
        } else {
            seq![96u8, 96u8, 96u8][k]
        },
{
}

/// A column whose ray hit nothing shows flat sky above the middle row and
/// flat floor from it down, whatever its wall colour.
pub proof fn lemma_miss_column_is_sky_and_floor(height: int, column: CameraColumn, y: int, k: int)
    requires
        !column.hit,
    ensures
        camera_channel(height, column, y, k) == if y < height / 2 {
            sky_rgb()[k]
        } else {
            floor_rgb()[k]
        },
{
}

/// The expected byte at offset `j` of a camera image.
pub open spec fn camera_byte(width: int, height: int, columns: Seq<CameraColumn>, j: int) -> u8 {
    camera_channel(height, columns[offset_column(width, j)], offset_row(width, j), j % 3)
}

/// The pixel of column `x` at row `y`.
fn column_pixel(height: usize, column: &CameraColumn, y: usize) -> (px: [u8; 3])
    requires
        column.wall_height <= height,
        y < height,
    ensures
        forall|k: int| 0 <= k < 3 ==> #[trigger] px@[k] == camera_channel(height as int, *column, y as int, k),
{
    let top = (height - column.wall_height) / 2;
    if !column.hit || y < top || y >= height - top {
        if y < height / 2 {
            sky_color()
        } else {
            floor_color()
        }
    } else {
        column.wall_color
    }
}

/// Lay out a camera image from the per-column ray-cast results: every column
/// shows sky, the wall band and floor, row by row.
pub fn render_camera_image(
    stamp: (i32, u32),
    width: u32,
    height: u32,
    columns: &Vec<CameraColumn>,
) -> (img: Image)
    requires
        columns@.len() == width,
        forall|i: int| 0 <= i < columns@.len() ==> #[trigger] columns@[i].wall_height <= height,
        width * height * 3 <= usize::MAX,
    ensures
        img.stamp == stamp,
        img.width == width,
        img.height == height,
        img.encoding@ == "rgb8"@,
        img.data@.len() == width * height * 3,
        forall|x: int, y: int, k: int|
            0 <= x < width && 0 <= y < height && 0 <= k < 3 ==> #[trigger] img.data@[rgb_offset(width as int, x, y, k)]
                == camera_channel(height as int, columns@[x], y, k),
{
    let w = width as usize;
    let h = height as usize;
    let mut data: Vec<u8> = Vec::new();
    let ghost wi = w as int;
    let mut y: usize = 0;
    while y < h
        invariant
            w == width,
            h == height,
            wi == w,
            columns@.len() == w,
            forall|i: int| 0 <= i < columns@.len() ==> #[trigger] columns@[i].wall_height <= h,
            w * h * 3 <= usize::MAX,
            y <= h,
            data@.len() == rgb_offset(wi, 0, y as int, 0),
            forall|j: int| 0 <= j < data@.len() ==> #[trigger] data@[j] == camera_byte(wi, h as int, columns@, j),
        decreases h - y,
    {
        let mut x: usize = 0;
        assert(rgb_offset(wi, 0, y as int, 0) + w * 3 <= w * h * 3) by (nonlinear_arith)
            requires
                y < h,
                rgb_offset(wi, 0, y as int, 0) == y * wi * 3,
                wi == w,
        ;
        while x < w
            invariant
                w == width,
                h == height,
                wi == w,
                columns@.len() == w,
                forall|i: int| 0 <= i < columns@.len() ==> #[trigger] columns@[i].wall_height <= h,
                w * h * 3 <= usize::MAX,
                y < h,
                x <= w,
                rgb_offset(wi, 0, y as int, 0) + w * 3 <= w * h * 3,
                data@.len() == rgb_offset(wi, x as int, y as int, 0),
                forall|j: int| 0 <= j < data@.len() ==> #[trigger] data@[j] == camera_byte(wi, h as int, columns@, j),
            decreases w - x,
        {
            let column = &columns[x];
            let px = column_pixel(h, column, y);
            proof {
                lemma_rgb_offset_decomposes(wi, x as int, y as int, 0);
                lemma_rgb_offset_decomposes(wi, x as int, y as int, 1);
                lemma_rgb_offset_decomposes(wi, x as int, y as int, 2);
            }
            let ghost before = data@;
            data.push(px[0]);
            data.push(px[1]);
            data.push(px[2]);
            proof {
                assert forall|j: int| 0 <= j < data@.len() implies #[trigger] data@[j] == camera_byte(wi, h as int, columns@, j) by {
                    if j >= before.len() {
                        let k = j - before.len();
                        assert(j == rgb_offset(wi, x as int, y as int, k));
                    } else {
                        assert(data@[j] == before[j]);
                    }
                }
                lemma_rgb_offset_next(wi, x as int, y as int);
            }
            x = x + 1;
        }
        assert(rgb_offset(wi, x as int, y as int, 0) == rgb_offset(wi, 0, y + 1, 0)) by (nonlinear_arith)
            requires
                x == wi,
        ;
        y = y + 1;
    }
    proof {
        assert(data@.len() == width * height * 3) by (nonlinear_arith)
            requires
                data@.len() == rgb_offset(wi, 0, h as int, 0),
                wi == width,
                h == height,
        ;
        assert forall|x: int, y: int, k: int|
            0 <= x < width && 0 <= y < height && 0 <= k < 3 implies #[trigger] data@[rgb_offset(width as int, x, y, k)]
                == camera_channel(height as int, columns@[x], y, k) by {
            lemma_rgb_offset_decomposes(wi, x, y, k);
            lemma_rgb_offset_in_buffer(wi, height as int, x, y, k);
        }
    }
    Image { stamp, width, height, encoding: String::from_str("rgb8"), data }
}

/// Seed of the lidar's range-noise stream for a scan taken at `step`, so that
/// noisy scans repeat exactly from run to run.
pub fn lidar_noise_seed(step: u64) -> (seed: u64)
    ensures
        seed == step ^ 0x5EED_5EEDu64,
{
    step ^ 0x5EED_5EED
}

} // verus!
