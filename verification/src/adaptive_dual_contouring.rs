//! Adaptive dual contouring: the extractor's settings.

use vstd::prelude::*;

verus! {

/// Extracts an isosurface by adaptive dual contouring over an octree no
/// deeper than `max_depth`, placing each cell's vertex with
/// `place_feature`.
pub struct AdaptiveDualContouring<P> {
    max_depth: usize,
    place_feature: P,
}

impl<P> AdaptiveDualContouring<P> {
    /// The deepest level of the octree that the extraction refines to.
    pub closed spec fn max_depth(&self) -> usize {
        self.max_depth
    }

    /// How the extraction places a vertex in each cell.
    pub closed spec fn place_feature(&self) -> P {
        self.place_feature
    }

    pub fn new(max_depth: usize, place_feature: P) -> (contouring: Self)
        ensures
            contouring.max_depth() == max_depth,
            contouring.place_feature() == place_feature,
    {
        Self { max_depth, place_feature }
    }

    /// Extracts the isosurface of `source` into `extractor`.
    ///
    /// The extraction is not carried out yet: neither the settings, the
    /// source nor the extractor are touched.
    pub fn extract<S, E>(&mut self, source: &S, extractor: &mut E)
        ensures
            *final(self) == *old(self),
            *final(extractor) == *old(extractor),
    {
    }
}

} // verus!
