//! A decode strategy paired with the version map it decodes under.
use vstd::prelude::*;

verus! {

/// A seed that is handed, with the version map of the decode in progress,
/// to the decoder of a nested value.
pub struct VersionedSeed<'v, S, VM> {
    seed: S,
    version_map: &'v VM,
}

impl<'v, S, VM> VersionedSeed<'v, S, VM> {
    pub fn new(seed: S, version_map: &'v VM) -> (r: Self)
        ensures
            r.seed() == seed,
            r.version_map() == version_map,
    {
        VersionedSeed { seed, version_map }
    }

    pub closed spec fn seed(&self) -> S {
        self.seed
    }

    pub closed spec fn version_map(&self) -> &'v VM {
        self.version_map
    }

    /// The seed and the version map.
    pub fn into_parts(self) -> (r: (S, &'v VM))
        ensures
            r.0 == self.seed(),
            r.1 == self.version_map(),
    {
        (self.seed, self.version_map)
    }
}

} // verus!
