//! Version groups named by a group name and a group version.
use vstd::prelude::*;
use crate::resolver::{find_group, DefaultVersionGroupResolver};
use crate::version_map::DefaultVersionMap;

verus! {

/// Name of a version group.
#[derive(Debug, Clone, PartialEq, Eq, Hash)]
pub struct GroupName(pub String);

/// Version of a version group.
#[derive(Debug, Clone, PartialEq, Eq, Hash)]
pub struct GroupVersion(pub String);

/// The version map registered in `resolver` for a group name and version.
pub fn version_map_for<'a>(
    resolver: &'a DefaultVersionGroupResolver,
    name: &GroupName,
    version: &GroupVersion,
) -> (r: Option<&'a DefaultVersionMap>)
    ensures
        r is None <==> find_group(resolver@, name.0@, version.0@) is None,
        r matches Some(m) ==> find_group(resolver@, name.0@, version.0@) == Some(*m),
{
    resolver.get(name.0.as_str(), version.0.as_str())
}

} // verus!
