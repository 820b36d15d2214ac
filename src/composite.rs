//! Placing the stitched disk on the output canvas.
//!
//! With a background the disk is cut out along its detected boundary so the
//! black padding around it stays hidden; without one the whole square is
//! placed on a black canvas.

use vstd::prelude::*;
use crate::disk::{cutout_disk, receives_disk};
use crate::error::SliderError;
use crate::raster::Raster;
use crate::stitch::{overlay, overlaid};
use crate::tile::{lanczos3_resized, resize_lanczos3};

verus! {

/// The offset that centres a span of `inner` within a span of `outer`.
pub fn placement_offset(outer: u32, inner: u32) -> (r: u32)
    requires
        inner <= outer,
    ensures
        r == (outer - inner) / 2,
{
    (outer - inner) / 2
}

/// The samples of `img` brought to `width` by `height`.
pub open spec fn fitted(img: Raster, width: u32, height: u32) -> Seq<u8> {
    if img.width == width && img.height == height {
        img.data@
    } else {
        lanczos3_resized(img.data@, img.width, img.height, width, height)
    }
}

/// The background at the canvas size: unchanged when it already has that
/// size, else scaled with the Lanczos3 filter.
pub fn fit_background(img: Raster, width: u32, height: u32) -> (r: Raster)
    requires
        img.wf(),
        3 * (width as int * height as int) <= usize::MAX,
    ensures
        r.wf(),
        r.width == width,
        r.height == height,
        r.data@ == fitted(img, width, height),
{
    if img.width != width || img.height != height {
        resize_lanczos3(&img, width, height)
    } else {
        img
    }
}

/// Pastes the disk pixels of `stitched`, centred, onto a copy of `background`.
pub fn composite_onto_background(background: &Raster, stitched: Raster) -> (r: Raster)
    requires
        background.wf(),
        stitched.wf(),
        stitched.width >= 1,
        stitched.height >= 1,
        stitched.width <= background.width,
        stitched.height <= background.height,
    ensures
        r.wf(),
        r.width == background.width,
        r.height == background.height,
        forall|i: int, j: int|
            background.contains(i, j) ==> #[trigger] r.pixel(i, j) == if receives_disk(
                stitched,
                (background.width - stitched.width) / 2,
                (background.height - stitched.height) / 2,
                i,
                j,
            ) {
                stitched.pixel(
                    i - (background.width - stitched.width) / 2,
                    j - (background.height - stitched.height) / 2,
                )
            } else {
                background.pixel(i, j)
            },
{
    let ox = placement_offset(background.width, stitched.width);
    let oy = placement_offset(background.height, stitched.height);
    let mut canvas = background.duplicate();
    cutout_disk(&mut canvas, stitched, ox, oy);
    canvas
}

/// Places the whole of `stitched`, centred, on a black `width` by `height`
/// canvas.
pub fn composite_plain(stitched: &Raster, width: u32, height: u32) -> (r: Raster)
    requires
        stitched.wf(),
        stitched.width <= width,
        stitched.height <= height,
        3 * (width as int * height as int) <= usize::MAX,
    ensures
        r.wf(),
        r.width == width,
        r.height == height,
        forall|i: int, j: int|
            r.contains(i, j) ==> #[trigger] r.pixel(i, j) == if stitched.contains(
                i - (width - stitched.width) / 2,
                j - (height - stitched.height) / 2,
            ) {
                stitched.pixel(i - (width - stitched.width) / 2, j - (height - stitched.height) / 2)
            } else {
                (0u8, 0u8, 0u8)
            },
{
    let ox = placement_offset(width, stitched.width);
    let oy = placement_offset(height, stitched.height);
    let mut canvas = Raster::new(width, height);
    let ghost blank = canvas;
    overlay(&mut canvas, stitched, ox, oy);
    assert forall|i: int, j: int| canvas.contains(i, j) implies #[trigger] canvas.pixel(i, j) == if stitched.contains(
        i - (width - stitched.width) / 2,
        j - (height - stitched.height) / 2,
    ) {
        stitched.pixel(i - (width - stitched.width) / 2, j - (height - stitched.height) / 2)
    } else {
        (0u8, 0u8, 0u8)
    } by {
        assert(blank.contains(i, j));
        assert(canvas.pixel(i, j) == overlaid(blank, *stitched, ox as int, oy as int, i, j));
    }
    canvas
}

/// Composes the output canvas: with a background already at the canvas size,
/// the disk of `stitched` cut out onto it; without one, the whole of
/// `stitched` on black.
pub fn composite(background: Option<&Raster>, stitched: Raster, width: u32, height: u32) -> (r: Raster)
    requires
        stitched.wf(),
        stitched.width <= width,
        stitched.height <= height,
        3 * (width as int * height as int) <= usize::MAX,
        background matches Some(bg) ==> bg.wf() && bg.width == width && bg.height == height
            && stitched.width >= 1 && stitched.height >= 1,
    ensures
        r.wf(),
        r.width == width,
        r.height == height,
        forall|i: int, j: int|
            r.contains(i, j) ==> #[trigger] r.pixel(i, j) == match background {
                Some(bg) => if receives_disk(
                    stitched,
                    (width - stitched.width) / 2,
                    (height - stitched.height) / 2,
                    i,
                    j,
                ) {
                    stitched.pixel(i - (width - stitched.width) / 2, j - (height - stitched.height) / 2)
                } else {
                    bg.pixel(i, j)
                },
                None => if stitched.contains(i - (width - stitched.width) / 2, j - (height - stitched.height) / 2) {
                    stitched.pixel(i - (width - stitched.width) / 2, j - (height - stitched.height) / 2)
                } else {
                    (0u8, 0u8, 0u8)
                },
            },
{
    match background {
        Some(bg) => composite_onto_background(bg, stitched),
        None => composite_plain(&stitched, width, height),
    }
}

/// How one run of the pipeline ended.
#[derive(Clone, Copy, Debug, PartialEq, Eq, Structural)]
pub enum CycleOutcome {
    /// A new wallpaper was composed.
    Updated,
    /// Fetching the image failed; nothing was composed this time.
    Skipped(SliderError),
    /// The image came in but compositing it failed.
    Failed(SliderError),
}

impl CycleOutcome {
    /// Whether the run composed a new wallpaper.
    pub fn is_updated(&self) -> (r: bool)
        ensures
            r == (*self == CycleOutcome::Updated),
    {
        match self {
            CycleOutcome::Updated => true,
            _ => false,
        }
    }
}

} // verus!
