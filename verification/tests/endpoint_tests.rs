//! Tests of the endpoint parser: parsing, rendering, matching and
//! overlap.

use astarte_core::endpoint::Endpoint;
use astarte_core::endpoint::EndpointError;
use astarte_core::endpoint::MappingPath;
use astarte_core::endpoint::PathError;

#[test]
fn parse_and_render_round_trip() {
    for input in ["/v", "/a/b/c", "/a/%{x}/c", "/%{id}/value", "/a-b_9/%{p_1}"] {
        let endpoint = Endpoint::try_from_str(input).unwrap();
        assert_eq!(endpoint.to_string(), input);
    }
}

#[test]
fn parse_rejects_invalid_endpoints() {
    assert!(matches!(
        Endpoint::try_from_str(""),
        Err(EndpointError::Empty)
    ));
    assert!(matches!(
        Endpoint::try_from_str("no/slash"),
        Err(EndpointError::MissingForwardSlash)
    ));
    for input in [
        "/", "//", "/a//b", "/a/", "/%{}", "/%{x", "/a%{x}", "/%{x}b", "/a+b", "/a#b", "/a b",
        "/-a", "/a%b",
    ] {
        assert!(
            matches!(
                Endpoint::try_from_str(input),
                Err(EndpointError::InvalidLevel)
            ),
            "{input} should be rejected"
        );
    }
}

#[test]
fn matches_concrete_paths() {
    let endpoint = Endpoint::try_from_str("/a/%{x}/c").unwrap();
    assert!(endpoint.matches(&MappingPath::try_from_str("/a/b/c").unwrap()));
    assert!(endpoint.matches(&MappingPath::try_from_str("/a/zzz/c").unwrap()));
    assert!(!endpoint.matches(&MappingPath::try_from_str("/a/b/d").unwrap()));
    assert!(!endpoint.matches(&MappingPath::try_from_str("/a/b").unwrap()));

    // Two parameters with the same name must capture equal levels.
    let endpoint = Endpoint::try_from_str("/%{x}/mid/%{x}").unwrap();
    assert!(endpoint.matches(&MappingPath::try_from_str("/v/mid/v").unwrap()));
    assert!(!endpoint.matches(&MappingPath::try_from_str("/v/mid/w").unwrap()));
}

#[test]
fn concrete_paths_reject_parameters() {
    assert!(matches!(
        MappingPath::try_from_str("/a/%{x}"),
        Err(PathError::Parameter)
    ));
    assert!(matches!(
        MappingPath::try_from_str("a/b"),
        Err(PathError::Endpoint(EndpointError::MissingForwardSlash))
    ));
    let path = MappingPath::try_from_str("/a/b").unwrap();
    assert_eq!(path.as_str(), "/a/b");
    assert_eq!(path.len(), 2);
}

#[test]
fn overlap_is_symmetric_and_reflexive() {
    let a = Endpoint::try_from_str("/a/%{x}").unwrap();
    let b = Endpoint::try_from_str("/a/b").unwrap();
    let c = Endpoint::try_from_str("/b/%{y}").unwrap();
    // Overlapping pair, both ways.
    assert!(a.overlaps(&b));
    assert!(b.overlaps(&a));
    // Non-overlapping pair, both ways.
    assert!(!a.overlaps(&c));
    assert!(!c.overlaps(&a));
    // Reflexive.
    assert!(a.overlaps(&a));
    assert!(b.overlaps(&b));
    // Different lengths never overlap.
    let d = Endpoint::try_from_str("/a").unwrap();
    assert!(!a.overlaps(&d));
}
