use serde_version::{
    aggregate, version_map_for, AggregateVersionMap, AggregateVersionMapError,
    DefaultVersionGroupResolver, DefaultVersionMap, GroupName, GroupVersion, VersionGroupResolver,
    VersionGroupURI, VersionMap, VersionMapIter,
};
use std::collections::HashMap;

const A: &str = "serde_version::version_groups::macros::tests::A";
const B: &str = "serde_version::version_groups::macros::tests::B";

fn map_of(pairs: &[(&str, usize)]) -> DefaultVersionMap {
    DefaultVersionMap::from_entries(pairs.iter().map(|(k, v)| (k.to_string(), *v)).collect())
}

fn as_hash_map(map: &DefaultVersionMap) -> HashMap<String, usize> {
    map.iter().into_iter().collect()
}

#[test]
fn version_map_new_works() {
    let version_map = map_of(&[(A, 1), (B, 2)]);

    assert_eq!(
        vec![(A.to_string(), 1), (B.to_string(), 2)]
            .into_iter()
            .collect::<HashMap<_, _>>(),
        as_hash_map(&version_map)
    );
}

#[test]
fn version_map_static_works() {
    let version_map = map_of(&[(A, 2), (B, 3)]);

    assert_eq!(
        &vec![(A.to_string(), 2), (B.to_string(), 3)]
            .into_iter()
            .collect::<HashMap<_, _>>(),
        &as_hash_map(&version_map)
    );
}

#[test]
fn version_group_resolver_new_works() {
    let mut resolver = DefaultVersionGroupResolver::new();
    resolver.insert("my.api_group", "1.0.0", map_of(&[(A, 1), (B, 2)]));

    assert_eq!(1, resolver.len());
    let found = resolver.get("my.api_group", "1.0.0").unwrap();
    assert_eq!(
        vec![(A.to_string(), 1), (B.to_string(), 2)]
            .into_iter()
            .collect::<HashMap<_, _>>(),
        as_hash_map(found)
    );
}

#[test]
fn version_map_get_and_insert() {
    let mut map = DefaultVersionMap::new();
    assert_eq!(None, map.get("A"));
    map.insert("A", 1);
    map.insert("B", 2);
    map.insert("A", 7);
    assert_eq!(2, map.len());
    assert_eq!(Some(7), map.get("A"));
    assert_eq!(Some(2), map.get("B"));
    assert_eq!(None, map.get("C"));
    assert_eq!(vec![("A".to_string(), 7), ("B".to_string(), 2)], map.iter());
}

#[test]
fn version_map_later_entry_wins() {
    let map = map_of(&[("A", 1), ("A", 3)]);
    assert_eq!(1, map.len());
    assert_eq!(Some(3), map.get("A"));
}

#[test]
fn resolver_replaces_and_misses() {
    let mut resolver = DefaultVersionGroupResolver::new();
    resolver.insert("g", "1", map_of(&[("A", 1)]));
    resolver.insert("g", "2", map_of(&[("A", 2)]));
    resolver.insert("g", "1", map_of(&[("A", 3)]));
    assert_eq!(2, resolver.len());
    assert_eq!(Some(3), resolver.get("g", "1").unwrap().get("A"));
    assert!(resolver.get("g", "3").is_none());
    assert!(resolver.get("h", "1").is_none());

    let uri = VersionGroupURI::parse("g:2").unwrap();
    assert_eq!(Some(2), resolver.resolve(&uri).unwrap().get("A"));
    let unknown = VersionGroupURI::parse("g:9").unwrap();
    assert!(resolver.resolve(&unknown).is_none());
}

#[test]
fn resolver_distinguishes_empty_map_from_absent() {
    let mut resolver = DefaultVersionGroupResolver::new();
    resolver.insert("g", "1", DefaultVersionMap::new());
    assert_eq!(0, resolver.get("g", "1").unwrap().len());
    assert!(resolver.get("g", "2").is_none());
}

#[test]
fn version_map_for_looks_up_group() {
    let mut resolver = DefaultVersionGroupResolver::new();
    resolver.insert("serde_version.test", "1.0.0", map_of(&[("A", 1), ("B", 1)]));
    let name = GroupName("serde_version.test".to_string());
    let found = version_map_for(&resolver, &name, &GroupVersion("1.0.0".to_string())).unwrap();
    assert_eq!(Some(1), found.get("B"));
    assert!(version_map_for(&resolver, &name, &GroupVersion("1.1.0".to_string())).is_none());
}

fn test_resolver() -> DefaultVersionGroupResolver {
    let mut resolver = DefaultVersionGroupResolver::new();
    resolver.insert("serde_version.test", "1.0.0", map_of(&[("A", 1), ("B", 1)]));
    resolver.insert("serde_version.test", "1.1.0", map_of(&[("A", 3)]));
    resolver.insert("other.test", "1.0.0", map_of(&[("C", 2)]));
    resolver.insert("third.test", "1.0.0", map_of(&[("D", 4), ("B", 2)]));
    resolver
}

fn uris(texts: &[&str]) -> Vec<VersionGroupURI> {
    texts.iter().map(|t| VersionGroupURI::parse(t).unwrap()).collect()
}

#[test]
fn aggregate_merges_disjoint_groups() {
    let resolver = test_resolver();
    let merged = aggregate(&uris(&["serde_version.test:1.1.0", "other.test:1.0.0"]), &resolver)
        .unwrap();
    assert_eq!(vec![("A".to_string(), 3), ("C".to_string(), 2)], merged.iter());
    assert_eq!(Some(3), merged.get("A"));
    assert_eq!(Some(2), merged.get("C"));
    assert_eq!(None, merged.get("B"));
}

#[test]
fn aggregate_of_nothing_is_empty() {
    let resolver = test_resolver();
    let merged = aggregate(&[], &resolver).unwrap();
    assert_eq!(0, merged.len());
}

#[test]
fn aggregate_unknown_uri() {
    let resolver = test_resolver();
    let err = ().aggregate_version_maps(
        &uris(&["other.test:1.0.0", "missing.test:2.0.0", "also.missing:1"]),
        &resolver,
    );
    match err {
        Err(AggregateVersionMapError::UnknownVersionURI(e)) => {
            assert_eq!("missing.test:2.0.0", e.uri.as_str())
        }
        other => panic!("unexpected {:?}", other),
    }
}

#[test]
fn aggregate_collision_names_both_groups() {
    let resolver = test_resolver();
    let err = aggregate(&uris(&["serde_version.test:1.0.0", "serde_version.test:1.1.0"]), &resolver);
    match err {
        Err(AggregateVersionMapError::TypeInMultipleVersionGroups(e)) => {
            assert_eq!("A", e.type_id);
            assert_eq!("serde_version.test:1.0.0", e.uri_1.as_str());
            assert_eq!("serde_version.test:1.1.0", e.uri_2.as_str());
        }
        other => panic!("unexpected {:?}", other),
    }
}

#[test]
fn aggregate_collision_either_order() {
    let resolver = test_resolver();
    let err = aggregate(&uris(&["serde_version.test:1.1.0", "serde_version.test:1.0.0"]), &resolver);
    match err {
        Err(AggregateVersionMapError::TypeInMultipleVersionGroups(e)) => {
            assert_eq!("A", e.type_id);
            assert_eq!("serde_version.test:1.1.0", e.uri_1.as_str());
            assert_eq!("serde_version.test:1.0.0", e.uri_2.as_str());
        }
        other => panic!("unexpected {:?}", other),
    }
}

#[test]
fn aggregate_collision_with_non_adjacent_group() {
    let resolver = test_resolver();
    let err = aggregate(
        &uris(&["serde_version.test:1.0.0", "other.test:1.0.0", "third.test:1.0.0"]),
        &resolver,
    );
    match err {
        Err(AggregateVersionMapError::TypeInMultipleVersionGroups(e)) => {
            assert_eq!("B", e.type_id);
            assert_eq!("serde_version.test:1.0.0", e.uri_1.as_str());
            assert_eq!("third.test:1.0.0", e.uri_2.as_str());
        }
        other => panic!("unexpected {:?}", other),
    }
}

#[test]
fn aggregate_collision_with_immediately_preceding_group() {
    let resolver = test_resolver();
    let err = aggregate(
        &uris(&["other.test:1.0.0", "serde_version.test:1.0.0", "third.test:1.0.0"]),
        &resolver,
    );
    match err {
        Err(AggregateVersionMapError::TypeInMultipleVersionGroups(e)) => {
            assert_eq!("B", e.type_id);
            assert_eq!("serde_version.test:1.0.0", e.uri_1.as_str());
            assert_eq!("third.test:1.0.0", e.uri_2.as_str());
        }
        other => panic!("unexpected {:?}", other),
    }
}

#[test]
fn aggregate_same_group_twice_collides() {
    let resolver = test_resolver();
    let err = aggregate(&uris(&["other.test:1.0.0", "other.test:1.0.0"]), &resolver);
    match err {
        Err(AggregateVersionMapError::TypeInMultipleVersionGroups(e)) => {
            assert_eq!("C", e.type_id);
            assert_eq!("other.test:1.0.0", e.uri_1.as_str());
            assert_eq!("other.test:1.0.0", e.uri_2.as_str());
        }
        other => panic!("unexpected {:?}", other),
    }
}
