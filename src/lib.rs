//! Versioned decoding: per-type version maps, version group identifiers,
//! their resolution and aggregation, and the dispatch rule that picks the
//! schema a versioned type is read with.
pub mod aggregate;
pub mod dispatch;
pub mod error;
pub mod resolver;
pub mod seed;
pub mod uri;
pub mod version_group;
pub mod version_map;
pub mod visitor;

pub use aggregate::{
    aggregate, AggregateVersionMap, AggregateVersionMapError, TypeInMultipleVersionGroups,
    UnknownVersionURI,
};
pub use dispatch::{
    Dispatch, InvalidVersionError, PathOrSelf, Version, VersionAttr, Versions, VersionsError,
};
pub use error::Error;
pub use resolver::{DefaultVersionGroupResolver, VersionGroupResolver};
pub use seed::VersionedSeed;
pub use uri::{TryFromError, VersionGroupURI, VersionGroupURIs};
pub use version_group::{version_map_for, GroupName, GroupVersion};
pub use version_map::{DefaultVersionMap, VersionMap, VersionMapIter};
pub use visitor::VersionedVisitor;
