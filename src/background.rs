//! The background image, loaded once and kept for later runs.
//!
//! Loading is the caller's part: it asks whether a load is needed, loads, and
//! hands the image over. A failed load hands nothing over, so the next run
//! tries again.

use vstd::prelude::*;
use crate::composite::{fit_background, fitted};
use crate::raster::Raster;

verus! {

/// What one run may do to the held background: nothing, or fill an empty
/// cache.
pub open spec fn cache_step(before: Option<Raster>, after: Option<Raster>) -> bool {
    after == before || (before is None && after is Some)
}

/// Across runs that each leave the cache alone or fill it while empty, a
/// background once held is held unchanged by every later run, so it is loaded
/// at most once; a run that failed to load leaves the cache empty, and the
/// next run may load again.
pub proof fn lemma_loaded_at_most_once(runs: Seq<Option<Raster>>, i: int, j: int)
    requires
        forall|k: int| 0 <= k < runs.len() - 1 ==> cache_step(#[trigger] runs[k], runs[k + 1]),
        0 <= i <= j < runs.len(),
        runs[i] is Some,
    ensures
        runs[j] == runs[i],
    decreases j - i,
{
    if i < j {
        lemma_loaded_at_most_once(runs, i, j - 1);
        assert(cache_step(runs[j - 1], runs[j]));
    }
}

/// Holds the background once it has been loaded and brought to the canvas size.
pub struct BackgroundCache {
    pub image: Option<Raster>,
}

impl BackgroundCache {
    /// A cache that holds nothing yet.
    pub fn new() -> (r: BackgroundCache)
        ensures
            r.image is None,
    {
        BackgroundCache { image: None }
    }

    /// Whether the background still has to be loaded.
    pub fn needs_load(&self) -> (r: bool)
        ensures
            r == self.image is None,
    {
        self.image.is_none()
    }

    /// Takes a freshly loaded background, brought to `width` by `height`, unless
    /// one is held already; a held background is never replaced.
    pub fn store(&mut self, loaded: Raster, width: u32, height: u32)
        requires
            loaded.wf(),
            3 * (width as int * height as int) <= usize::MAX,
        ensures
            cache_step(old(self).image, final(self).image),
            old(self).image is Some ==> final(self).image == old(self).image,
            old(self).image is None ==> (final(self).image matches Some(bg) && bg.wf() && bg.width == width
                && bg.height == height && bg.data@ == fitted(loaded, width, height)),
    {
        if self.image.is_none() {
            self.image = Some(fit_background(loaded, width, height));
        }
    }

    /// The held background, if any.
    pub fn image(&self) -> (r: Option<&Raster>)
        ensures
            r is None <==> self.image is None,
            r matches Some(bg) ==> self.image == Some(*bg),
    {
        match &self.image {
            Some(bg) => Some(bg),
            None => None,
        }
    }
}

} // verus!
