use serde_version::{
    DefaultVersionMap, Dispatch, Error, InvalidVersionError, PathOrSelf, VersionAttr, Versions,
    VersionsError,
};
use std::collections::HashMap;

fn attr(path: Option<&str>, index: Option<usize>, is_self: bool, is_default: bool) -> VersionAttr {
    VersionAttr { path: path.map(|p| p.to_string()), index, is_self, is_default }
}

/// `A`: 1 -> Av1, 3 (default) -> Av2, 4 -> itself.
fn versions_of_a() -> Versions {
    Versions::from_attrs(&[
        attr(Some("Av1"), Some(1), false, false),
        attr(Some("Av2"), Some(3), false, true),
        attr(None, Some(4), true, false),
    ])
    .unwrap()
}

#[test]
fn parse_container() {
    let versions = Versions::from_attrs(&[
        attr(Some("Av1"), Some(1), false, false),
        attr(Some("namespace::Av2"), Some(3), false, true),
        attr(None, Some(4), true, false),
    ])
    .unwrap();

    assert_eq!(versions.len(), 3);
    assert_eq!(
        vec![
            (1, ("Av1".to_owned(), false)),
            (3, ("namespace::Av2".to_owned(), true)),
            (4, ("<self>".to_owned(), false))
        ]
        .into_iter()
        .collect::<HashMap<_, _>>(),
        versions
            .versions()
            .iter()
            .map(|v| (
                v.index,
                (
                    match &v.path {
                        PathOrSelf::SelfType => "<self>".to_string(),
                        PathOrSelf::Path(path) => path.clone(),
                    },
                    v.is_default
                )
            ))
            .collect::<HashMap<_, _>>()
    );
}

#[test]
fn from_attrs_errors() {
    let ok = attr(None, Some(4), true, false);
    let cases = vec![
        (vec![attr(Some("Av1"), Some(1), true, false), ok.clone()], VersionsError::TypeAndSelf),
        (vec![attr(None, Some(1), false, false), ok.clone()], VersionsError::MissingTypeOrSelf),
        (vec![attr(Some("Av1"), None, false, false), ok.clone()], VersionsError::MissingIndex),
        (
            vec![attr(Some("Av1"), Some(4), false, false), ok.clone()],
            VersionsError::DuplicateIndex(4),
        ),
        (vec![ok.clone(), attr(None, Some(5), true, false)], VersionsError::MultipleSelf),
        (
            vec![
                attr(Some("Av1"), Some(1), false, true),
                attr(Some("Av2"), Some(2), false, true),
                ok.clone(),
            ],
            VersionsError::MultipleDefaults,
        ),
        (vec![attr(Some("Av1"), Some(1), false, false)], VersionsError::MissingSelf),
        (vec![], VersionsError::MissingSelf),
    ];
    for (attrs, expected) in cases {
        assert_eq!(Err(expected), Versions::from_attrs(&attrs).map(|v| v.len()));
    }
}

#[test]
fn from_attrs_missing_self_reported_before_clashes() {
    let cases = vec![
        vec![attr(Some("X"), Some(1), false, false), attr(Some("Y"), Some(1), false, false)],
        vec![attr(Some("X"), Some(1), false, true), attr(Some("Y"), Some(2), false, true)],
    ];
    for attrs in cases {
        assert_eq!(Err(VersionsError::MissingSelf), Versions::from_attrs(&attrs).map(|v| v.len()));
    }
}

#[test]
fn from_attrs_item_error_reported_before_missing_self() {
    let attrs = vec![attr(Some("X"), Some(1), false, false), attr(Some("Y"), None, false, false)];
    assert_eq!(Err(VersionsError::MissingIndex), Versions::from_attrs(&attrs).map(|v| v.len()));
}

#[test]
fn from_attrs_item_error_reported_before_clash() {
    let attrs = vec![
        attr(Some("X"), Some(1), false, false),
        attr(Some("Y"), Some(1), false, false),
        attr(Some("Z"), Some(2), true, false),
        attr(None, Some(3), true, false),
    ];
    assert_eq!(Err(VersionsError::TypeAndSelf), Versions::from_attrs(&attrs).map(|v| v.len()));
}

#[test]
fn from_attrs_first_error_wins() {
    let attrs = vec![attr(None, None, false, false), attr(Some("X"), Some(1), true, false)];
    assert_eq!(
        Err(VersionsError::MissingTypeOrSelf),
        Versions::from_attrs(&attrs).map(|v| v.len())
    );
}

#[test]
fn scenario_historical_version() {
    // A -> 1 reads `Av1 { a }` and converts it.
    assert_eq!(Ok(Dispatch::Historical(1)), versions_of_a().dispatch("A", Some(1)));
}

#[test]
fn scenario_default_version_recorded() {
    assert_eq!(Ok(Dispatch::Historical(3)), versions_of_a().dispatch("A", Some(3)));
}

#[test]
fn scenario_own_version() {
    assert_eq!(Ok(Dispatch::Current), versions_of_a().dispatch("A", Some(4)));
}

#[test]
fn scenario_no_entry_uses_default() {
    assert_eq!(Ok(Dispatch::Historical(3)), versions_of_a().dispatch("A", None));
}

#[test]
fn scenario_no_entry_without_default_is_current() {
    let versions = Versions::from_attrs(&[
        attr(Some("Bv1"), Some(1), false, false),
        attr(None, Some(2), true, false),
    ])
    .unwrap();
    assert_eq!(Ok(Dispatch::Current), versions.dispatch("B", None));
}

#[test]
fn scenario_default_on_own_version_is_current() {
    let versions = Versions::from_attrs(&[
        attr(Some("Bv1"), Some(1), false, false),
        attr(None, Some(2), true, true),
    ])
    .unwrap();
    assert_eq!(Ok(Dispatch::Current), versions.dispatch("B", None));
}

#[test]
fn scenario_undeclared_version() {
    assert_eq!(
        Err(InvalidVersionError { version: 5, type_id: "A".to_string() }),
        versions_of_a().dispatch("A", Some(5))
    );
    assert_eq!(
        Err(InvalidVersionError { version: 2, type_id: "test_de::A".to_string() }),
        versions_of_a().dispatch("test_de::A", Some(2))
    );
}

#[test]
fn dispatch_through_version_map() {
    let versions = versions_of_a();
    let mut map = DefaultVersionMap::new();
    map.insert("B", 1);
    assert_eq!(Ok(Dispatch::Historical(3)), versions.dispatch_in("A", &map));
    map.insert("A", 1);
    assert_eq!(Ok(Dispatch::Historical(1)), versions.dispatch_in("A", &map));
    map.insert("A", 4);
    assert_eq!(Ok(Dispatch::Current), versions.dispatch_in("A", &map));
    map.insert("A", 5);
    assert_eq!(
        Err(InvalidVersionError { version: 5, type_id: "A".to_string() }),
        versions.dispatch_in("A", &map)
    );
}

#[test]
fn nested_occurrences_dispatch_alike() {
    // Every occurrence of `A` in `{ a: A, list: [A, A] }` is read under the
    // same map, and so with the same schema.
    let versions = versions_of_a();
    let mut map = DefaultVersionMap::new();
    map.insert("A", 1);
    let occurrences: Vec<_> = (0..3).map(|_| versions.dispatch_in("A", &map)).collect();
    assert!(occurrences.iter().all(|d| *d == Ok(Dispatch::Historical(1))));
}

#[test]
fn reduce_keeps_innermost_decode_error() {
    let e: Error<Error<u32>> = Error::DeserializeError(Error::DeserializeError(7));
    assert_eq!(Error::DeserializeError(7), e.reduce());
}

#[test]
fn reduce_message_and_version_errors() {
    let iv = InvalidVersionError { version: 5, type_id: "A".to_string() };
    let cases: Vec<(Error<Error<u32>>, Error<u32>)> = vec![
        (Error::Message("outer".to_string()), Error::Message("outer".to_string())),
        (
            Error::DeserializeError(Error::Message("inner".to_string())),
            Error::Message("inner".to_string()),
        ),
        (Error::InvalidVersionError(iv.clone()), Error::InvalidVersionError(iv.clone())),
        (
            Error::DeserializeError(Error::InvalidVersionError(iv.clone())),
            Error::InvalidVersionError(iv.clone()),
        ),
    ];
    for (input, expected) in cases {
        assert_eq!(expected, input.reduce());
    }
}
