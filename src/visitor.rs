//! A visitor paired with the version map it visits under.
use vstd::prelude::*;

verus! {

/// A visitor, or an access to a sequence, map or variant, that carries the
/// version map of the decode in progress to the values it reaches.
pub struct VersionedVisitor<V, VM> {
    visitor: V,
    version_map: VM,
}

impl<V, VM> VersionedVisitor<V, VM> {
    pub fn new(visitor: V, version_map: VM) -> (r: Self)
        ensures
            r.visitor() == visitor,
            r.version_map() == version_map,
    {
        VersionedVisitor { visitor, version_map }
    }

    pub closed spec fn visitor(&self) -> V {
        self.visitor
    }

    pub closed spec fn version_map(&self) -> VM {
        self.version_map
    }

    /// The visitor and the version map.
    pub fn into_parts(self) -> (r: (V, VM))
        ensures
            r.0 == self.visitor(),
            r.1 == self.version_map(),
    {
        (self.visitor, self.version_map)
    }
}

} // verus!
