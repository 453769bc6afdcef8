use serde_version::{VersionGroupURI, VersionGroupURIs};
use std::borrow::Cow;
use std::convert::TryFrom;

#[test]
fn uri_from_str_works() {
    let uri = VersionGroupURI::try_from("my.api_group:1.0.0").unwrap();
    assert_eq!("my.api_group", uri.api_group());
    assert_eq!("1.0.0", uri.version());
}

#[test]
fn uri_from_string_works() {
    let uri = VersionGroupURI::try_from("my.api_group:1.0.0".to_string()).unwrap();
    assert_eq!("my.api_group", uri.api_group());
    assert_eq!("1.0.0", uri.version());
}

#[test]
fn uri_from_cow_works() {
    let uri = VersionGroupURI::try_from(Cow::Borrowed("my.api_group:1.0.0")).unwrap();
    assert_eq!("my.api_group", uri.api_group());
    assert_eq!("1.0.0", uri.version());
}

#[test]
fn uri_from_owned_cow_works() {
    let uri = VersionGroupURI::try_from(Cow::Owned::<str>("g:v".to_string())).unwrap();
    assert_eq!("g", uri.api_group());
    assert_eq!("v", uri.version());
}

#[test]
fn uri_keeps_source_text() {
    let uri = VersionGroupURI::parse("group:1.2").unwrap();
    assert_eq!("group:1.2", uri.as_str());
    assert_eq!("group:1.2", uri.to_string());
}

#[test]
fn uri_with_two_separators_rejected() {
    for text in ["a:b:c", "a:b:", "group:1:2", "a::b"] {
        assert_eq!(text, VersionGroupURI::parse(text).unwrap_err().source);
        assert_eq!(text, VersionGroupURI::try_from(text).unwrap_err().source);
        assert_eq!(text, VersionGroupURI::try_from(text.to_string()).unwrap_err().source);
        assert_eq!(text, VersionGroupURI::try_from(Cow::Borrowed(text)).unwrap_err().source);
    }
}

#[test]
fn uri_round_trip_reproduces_parts() {
    for (g, v) in [("a", "b"), ("my.second.api_group", "1.2.0"), ("x", "y.z")] {
        let text = format!("{}:{}", g, v);
        let uri = VersionGroupURI::parse(&text).unwrap();
        assert_eq!(g, uri.api_group());
        assert_eq!(v, uri.version());
    }
}

#[test]
fn uri_malformed_rejected() {
    for text in ["", "abc", "noseparator", ":1.0", ":1.0.0", "grp:", "group:", ":", "::x"] {
        assert_eq!(text, VersionGroupURI::parse(text).unwrap_err().source);
        assert_eq!(text, VersionGroupURI::try_from(text).unwrap_err().source);
        assert_eq!(text, VersionGroupURI::try_from(text.to_string()).unwrap_err().source);
        assert_eq!(text, VersionGroupURI::try_from(Cow::Borrowed(text)).unwrap_err().source);
    }
}

#[test]
fn uri_non_ascii_parts() {
    let uri = VersionGroupURI::parse("grüppe:vé").unwrap();
    assert_eq!("grüppe", uri.api_group());
    assert_eq!("vé", uri.version());
}

#[test]
fn uri_to_static_copies() {
    let text = String::from("my.api_group:1.0.0");
    let copy = {
        let uri = VersionGroupURI::parse(&text).unwrap();
        uri.to_static()
    };
    assert_eq!("my.api_group", copy.api_group());
    assert_eq!("1.0.0", copy.version());
}

#[test]
fn uris_keep_order() {
    let uris = VersionGroupURIs::new(vec![
        VersionGroupURI::parse("my.api_group:1.0.0").unwrap(),
        VersionGroupURI::parse("my.second.api_group:1.2.0").unwrap(),
    ]);
    assert_eq!(2, uris.len());
    assert_eq!("my.api_group", uris.versions()[0].api_group());
    assert_eq!("my.second.api_group", uris.versions()[1].api_group());
    assert_eq!("1.2.0", uris.versions()[1].version());
}

#[test]
fn uri_clone_keeps_parts() {
    let uri = VersionGroupURI::parse("my.api_group:1.0.0").unwrap();
    let copy = uri.clone();
    assert_eq!(uri, copy);
    assert_eq!("my.api_group", copy.api_group());
    assert_eq!("1.0.0", copy.version());
    let uris = VersionGroupURIs::new(vec![uri, VersionGroupURI::parse("g:v").unwrap()]);
    let copies = uris.clone();
    assert_eq!(uris, copies);
    assert_eq!("v", copies.versions()[1].version());
}
