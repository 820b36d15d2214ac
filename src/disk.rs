//! Finding the Earth disk in a stitched image and pasting it onto a background.
//!
//! The disk is found by marching along the middle row from each side until a
//! pixel brighter than the cutoff in all three channels turns up. Half the
//! distance between the two finds is the radius; the centre is taken to be the
//! centre of the image.

use vstd::prelude::*;
use crate::raster::{Raster, Rgb};

verus! {

/// A channel counts as lit above this value.
pub const BLACK_CUTOFF: u8 = 4;

/// A pixel belongs to the disk when all three channels exceed the cutoff.
pub open spec fn is_disk_color(p: Rgb) -> bool {
    p.0 > BLACK_CUTOFF && p.1 > BLACK_CUTOFF && p.2 > BLACK_CUTOFF
}

/// The row along which the disk edges are searched.
pub open spec fn middle_row(img: Raster) -> int {
    (img.height - 1) / 2
}

/// The column of the centre of the image.
pub open spec fn middle_column(img: Raster) -> int {
    (img.width - 1) / 2
}

/// Marching right from column `x` on row `y`: the first disk pixel, or the
/// last column when none comes before it.
pub open spec fn march_right_from(img: Raster, y: int, x: int) -> int
    decreases img.width - 1 - x,
{
    if x >= img.width - 1 {
        img.width - 1
    } else if is_disk_color(img.pixel(x, y)) {
        x
    } else {
        march_right_from(img, y, x + 1)
    }
}

/// Marching left from column `x` on row `y`: the first disk pixel, or column
/// zero when none comes before it.
pub open spec fn march_left_from(img: Raster, y: int, x: int) -> int
    decreases x,
{
    if x <= 0 {
        0
    } else if is_disk_color(img.pixel(x, y)) {
        x
    } else {
        march_left_from(img, y, x - 1)
    }
}

/// The left edge of the disk on the middle row.
pub open spec fn disk_left(img: Raster) -> int {
    march_right_from(img, middle_row(img), 0)
}

/// The right edge of the disk on the middle row.
pub open spec fn disk_right(img: Raster) -> int {
    march_left_from(img, middle_row(img), img.width - 1)
}

/// Half the span between the edges, or zero when the edges cross.
pub open spec fn radius_between(left: int, right: int) -> int {
    if right >= left {
        (right - left) / 2
    } else {
        0
    }
}

/// The radius of the disk found in `img`.
pub open spec fn disk_radius(img: Raster) -> int {
    radius_between(disk_left(img), disk_right(img))
}

/// Squared distance between `(cx, cy)` and `(x, y)`.
pub open spec fn dist_sq(cx: int, cy: int, x: int, y: int) -> int {
    (cx - x) * (cx - x) + (cy - y) * (cy - y)
}

/// Whether `(x, y)` lies strictly inside the circle of radius `r` around
/// `(cx, cy)`. For a non-negative `r`, `d < r * r` holds exactly when the
/// integer square root of `d` is below `r`, so this is the test on the whole
/// distance in pixels; a pixel at distance `r` is outside.
pub open spec fn within(cx: int, cy: int, r: int, x: int, y: int) -> bool {
    dist_sq(cx, cy, x, y) < r * r
}

/// `s` is the integer square root of `d`: the largest number whose square is
/// at most `d`.
pub open spec fn is_int_sqrt(d: int, s: int) -> bool {
    0 <= s && s * s <= d < (s + 1) * (s + 1)
}

/// Comparing squares is comparing the integer square root: for a radius
/// `r >= 0`, the root of `d` is below `r` exactly when `d < r * r`.
pub proof fn lemma_int_sqrt_below(d: int, s: int, r: int)
    requires
        is_int_sqrt(d, s),
        0 <= r,
    ensures
        (s < r) == (d < r * r),
{
    if s < r {
        assert((s + 1) * (s + 1) <= r * r) by (nonlinear_arith)
            requires
                0 <= s,
                s + 1 <= r,
        ;
    } else {
        assert(r * r <= s * s) by (nonlinear_arith)
            requires
                0 <= r,
                r <= s,
        ;
    }
}

/// Whether pixel `(x, y)` of `img` belongs to the disk mask.
pub open spec fn in_disk_mask(img: Raster, x: int, y: int) -> bool {
    within(middle_column(img), middle_row(img), disk_radius(img), x, y)
}

/// Whether the pixel `(i, j)` of the background receives a pixel of the disk
/// placed at `(ox, oy)`.
pub open spec fn receives_disk(earth: Raster, ox: int, oy: int, i: int, j: int) -> bool {
    earth.contains(i - ox, j - oy) && in_disk_mask(earth, i - ox, j - oy)
}

/// Marching right over a row with no disk pixel from `x` on ends at the last column.
proof fn lemma_march_right_dark(img: Raster, y: int, x: int)
    requires
        0 <= x,
        forall|i: int| x <= i < img.width ==> !is_disk_color(#[trigger] img.pixel(i, y)),
    ensures
        march_right_from(img, y, x) == img.width - 1,
    decreases img.width - 1 - x,
{
    if x < img.width - 1 {
        lemma_march_right_dark(img, y, x + 1);
    }
}

/// Marching left over a row with no disk pixel up to `x` ends at column zero.
proof fn lemma_march_left_dark(img: Raster, y: int, x: int)
    requires
        forall|i: int| 0 <= i <= x ==> !is_disk_color(#[trigger] img.pixel(i, y)),
    ensures
        march_left_from(img, y, x) == 0,
    decreases x,
{
    if x > 0 {
        lemma_march_left_dark(img, y, x - 1);
    }
}

/// On an image whose middle row is lit from end to end, the edges are the
/// first and the last column.
pub proof fn lemma_bright_row_edges(img: Raster)
    requires
        img.width >= 1,
        forall|i: int| 0 <= i < img.width ==> is_disk_color(#[trigger] img.pixel(i, middle_row(img))),
    ensures
        disk_left(img) == 0,
        disk_right(img) == img.width - 1,
{
}

/// On an image whose middle row holds no disk pixel, the radius is zero and
/// no pixel belongs to the mask.
pub proof fn lemma_dark_row_empty_mask(img: Raster)
    requires
        img.width >= 1,
        forall|i: int| 0 <= i < img.width ==> !is_disk_color(#[trigger] img.pixel(i, middle_row(img))),
    ensures
        disk_radius(img) == 0,
        forall|x: int, y: int| !#[trigger] in_disk_mask(img, x, y),
{
    lemma_march_right_dark(img, middle_row(img), 0);
    lemma_march_left_dark(img, middle_row(img), img.width - 1);
    assert forall|x: int, y: int| !#[trigger] in_disk_mask(img, x, y) by {
        let dx = middle_column(img) - x;
        let dy = middle_row(img) - y;
        assert(0 <= dx * dx + dy * dy) by (nonlinear_arith);
    }
}

/// The centre pixel belongs to the mask whenever the radius is positive.
pub proof fn lemma_center_inside(img: Raster)
    requires
        disk_radius(img) > 0,
    ensures
        in_disk_mask(img, middle_column(img), middle_row(img)),
{
    let r = disk_radius(img);
    assert(0 < r * r) by (nonlinear_arith)
        requires
            0 < r,
    ;
}

/// Marches right along row `y` from column zero; returns the first column whose
/// pixel is disk-coloured, or the last column when none is.
pub fn march_right(img: &Raster, y: u32) -> (r: u32)
    requires
        img.wf(),
        img.width >= 1,
        y < img.height,
    ensures
        r == march_right_from(*img, y as int, 0),
        r <= img.width - 1,
        forall|i: int| 0 <= i < r ==> !is_disk_color(#[trigger] img.pixel(i, y as int)),
        r < img.width - 1 ==> is_disk_color(img.pixel(r as int, y as int)),
{
    let x_max = img.width - 1;
    let mut x: u32 = 0;
    while x < x_max
        invariant
            img.wf(),
            x_max == img.width - 1,
            y < img.height,
            x <= x_max,
            march_right_from(*img, y as int, x as int) == march_right_from(*img, y as int, 0),
            forall|i: int| 0 <= i < x ==> !is_disk_color(#[trigger] img.pixel(i, y as int)),
        decreases x_max - x,
    {
        let p = img.get_pixel(x, y);
        if p.0 > BLACK_CUTOFF && p.1 > BLACK_CUTOFF && p.2 > BLACK_CUTOFF {
            return x;
        }
        x = x + 1;
    }
    x_max
}

/// Marches left along row `y` from the last column; returns the first column
/// whose pixel is disk-coloured, or column zero when none is.
pub fn march_left(img: &Raster, y: u32) -> (r: u32)
    requires
        img.wf(),
        img.width >= 1,
        y < img.height,
    ensures
        r == march_left_from(*img, y as int, img.width - 1),
        r <= img.width - 1,
        forall|i: int| r < i <= img.width - 1 ==> !is_disk_color(#[trigger] img.pixel(i, y as int)),
        r > 0 ==> is_disk_color(img.pixel(r as int, y as int)),
{
    let x_max = img.width - 1;
    let mut x: u32 = x_max;
    while x > 0
        invariant
            img.wf(),
            x_max == img.width - 1,
            y < img.height,
            x <= x_max,
            march_left_from(*img, y as int, x as int) == march_left_from(*img, y as int, x_max as int),
            forall|i: int| x < i <= x_max ==> !is_disk_color(#[trigger] img.pixel(i, y as int)),
        decreases x,
    {
        let p = img.get_pixel(x, y);
        if p.0 > BLACK_CUTOFF && p.1 > BLACK_CUTOFF && p.2 > BLACK_CUTOFF {
            return x;
        }
        x = x - 1;
    }
    0
}

/// Half the distance between the two edges, clamped to zero when the right
/// edge lies left of the left one.
pub fn radius_of(left: u32, right: u32) -> (r: u32)
    ensures
        r == radius_between(left as int, right as int),
{
    if right >= left {
        (right - left) / 2
    } else {
        0
    }
}

/// Whether `(x, y)` lies strictly within `radius` of `(cx, cy)`.
pub fn is_within(cx: u32, cy: u32, radius: u32, x: u32, y: u32) -> (r: bool)
    ensures
        r == within(cx as int, cy as int, radius as int, x as int, y as int),
{
    let dx: i128 = cx as i128 - x as i128;
    let dy: i128 = cy as i128 - y as i128;
    proof {
        assert(dx * dx <= 0x1_0000_0000 * 0x1_0000_0000) by (nonlinear_arith)
            requires
                -0x1_0000_0000 <= dx <= 0x1_0000_0000,
        ;
        assert(dy * dy <= 0x1_0000_0000 * 0x1_0000_0000) by (nonlinear_arith)
            requires
                -0x1_0000_0000 <= dy <= 0x1_0000_0000,
        ;
        assert(0 <= dx * dx) by (nonlinear_arith);
        assert(0 <= dy * dy) by (nonlinear_arith);
        assert(radius as int * radius as int <= 0x1_0000_0000 * 0x1_0000_0000) by (nonlinear_arith)
            requires
                radius <= 0x1_0000_0000,
        ;
    }
    let rr: i128 = radius as i128 * radius as i128;
    dx * dx + dy * dy < rr
}

/// Copies onto `bg`, at offset `(offset_x, offset_y)`, the pixels of `earth`
/// that fall inside the disk found in it; every other pixel of `bg` stays.
pub fn cutout_disk(bg: &mut Raster, earth: Raster, offset_x: u32, offset_y: u32)
    requires
        old(bg).wf(),
        earth.wf(),
        earth.width >= 1,
        earth.height >= 1,
        offset_x as int + earth.width as int <= old(bg).width,
        offset_y as int + earth.height as int <= old(bg).height,
    ensures
        final(bg).wf(),
        final(bg).width == old(bg).width,
        final(bg).height == old(bg).height,
        forall|i: int, j: int|
            old(bg).contains(i, j) ==> #[trigger] final(bg).pixel(i, j) == if receives_disk(
                earth,
                offset_x as int,
                offset_y as int,
                i,
                j,
            ) {
                earth.pixel(i - offset_x, j - offset_y)
            } else {
                old(bg).pixel(i, j)
            },
{
    let x_max = earth.width - 1;
    let y_max = earth.height - 1;
    let x_center = x_max / 2;
    let y_center = y_max / 2;
    let disk_left = march_right(&earth, y_center);
    let disk_right = march_left(&earth, y_center);
    let radius = radius_of(disk_left, disk_right);
    let ghost ox = offset_x as int;
    let ghost oy = offset_y as int;
    let mut x: u32 = 0;
    while x < earth.width
        invariant
            bg.wf(),
            earth.wf(),
            bg.width == old(bg).width,
            bg.height == old(bg).height,
            x <= earth.width,
            x_center == middle_column(earth),
            y_center == middle_row(earth),
            radius == disk_radius(earth),
            ox == offset_x as int,
            oy == offset_y as int,
            offset_x as int + earth.width as int <= bg.width,
            offset_y as int + earth.height as int <= bg.height,
            forall|i: int, j: int|
                old(bg).contains(i, j) ==> #[trigger] bg.pixel(i, j) == if receives_disk(earth, ox, oy, i, j)
                    && i - ox < x {
                    earth.pixel(i - ox, j - oy)
                } else {
                    old(bg).pixel(i, j)
                },
        decreases earth.width - x,
    {
        let mut y: u32 = 0;
        while y < earth.height
            invariant
                bg.wf(),
                earth.wf(),
                bg.width == old(bg).width,
                bg.height == old(bg).height,
                x < earth.width,
                y <= earth.height,
                x_center == middle_column(earth),
                y_center == middle_row(earth),
                radius == disk_radius(earth),
                ox == offset_x as int,
                oy == offset_y as int,
                offset_x as int + earth.width as int <= bg.width,
                offset_y as int + earth.height as int <= bg.height,
                forall|i: int, j: int|
                    old(bg).contains(i, j) ==> #[trigger] bg.pixel(i, j) == if receives_disk(earth, ox, oy, i, j)
                        && (i - ox < x || (i - ox == x && j - oy < y)) {
                        earth.pixel(i - ox, j - oy)
                    } else {
                        old(bg).pixel(i, j)
                    },
            decreases earth.height - y,
        {
            let ghost prev = *bg;
            let inside = is_within(x_center, y_center, radius, x, y);
            if inside {
                let p = earth.get_pixel(x, y);
                bg.put_pixel(offset_x + x, offset_y + y, p);
            }
            assert forall|i: int, j: int| old(bg).contains(i, j) implies #[trigger] bg.pixel(i, j)
                == if receives_disk(earth, ox, oy, i, j) && (i - ox < x || (i - ox == x && j - oy < y + 1)) {
                earth.pixel(i - ox, j - oy)
            } else {
                old(bg).pixel(i, j)
            } by {
                if i == ox + x && j == oy + y {
                    assert(receives_disk(earth, ox, oy, i, j) == inside);
                } else {
                    assert(prev.contains(i, j));
                }
            }
            y = y + 1;
        }
        x = x + 1;
    }
}

} // verus!
