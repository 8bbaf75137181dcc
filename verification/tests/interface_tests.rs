//! Tests of interface validation and its round trip back to the raw
//! definition.

use astarte_core::interface::Interface;
use astarte_core::interface::InterfaceError;
use astarte_core::interface::MAX_INTERFACE_MAPPINGS;
use astarte_core::mapping::MappingError;
use astarte_core::schema::Aggregation;
use astarte_core::schema::InterfaceJson;
use astarte_core::schema::InterfaceType;
use astarte_core::schema::Mapping;
use astarte_core::schema::MappingType;
use astarte_core::schema::Ownership;

fn json(
    name: &str,
    major: i32,
    minor: i32,
    interface_type: InterfaceType,
    ownership: Ownership,
    aggregation: Option<Aggregation>,
    mappings: Vec<Mapping>,
) -> InterfaceJson {
    InterfaceJson {
        interface_name: name.to_string(),
        version_major: major,
        version_minor: minor,
        interface_type,
        ownership,
        aggregation,
        description: None,
        doc: None,
        mappings,
    }
}

fn device_property(name: &str, endpoints: &[&str]) -> InterfaceJson {
    let mappings = endpoints
        .iter()
        .map(|e| Mapping::new(e.to_string(), MappingType::Integer))
        .collect();
    json(
        name,
        1,
        0,
        InterfaceType::Properties,
        Ownership::Device,
        None,
        mappings,
    )
}

#[test]
fn validates_a_simple_datastream() {
    let definition = json(
        "org.ex.DeviceDS",
        1,
        0,
        InterfaceType::Datastream,
        Ownership::Device,
        None,
        vec![Mapping::new("/v".to_string(), MappingType::Integer)],
    );
    let interface = Interface::try_from_json(&definition).unwrap();
    assert_eq!(interface.interface_name(), "org.ex.DeviceDS");
    assert_eq!(interface.version_major(), 1);
    assert_eq!(interface.version_minor(), 0);
    assert_eq!(interface.interface_type(), InterfaceType::Datastream);
    assert_eq!(interface.aggregation(), Aggregation::Individual);
    assert_eq!(interface.ownership(), Ownership::Device);
}

#[test]
fn rejects_bad_versions() {
    let definition = json(
        "org.ex.A",
        0,
        0,
        InterfaceType::Datastream,
        Ownership::Device,
        None,
        vec![Mapping::new("/v".to_string(), MappingType::Integer)],
    );
    assert!(matches!(
        Interface::try_from_json(&definition).unwrap_err(),
        InterfaceError::MajorMinor
    ));

    let definition = json(
        "org.ex.A",
        -1,
        5,
        InterfaceType::Datastream,
        Ownership::Device,
        None,
        vec![Mapping::new("/v".to_string(), MappingType::Integer)],
    );
    assert!(matches!(
        Interface::try_from_json(&definition).unwrap_err(),
        InterfaceError::MajorMinor
    ));
}

#[test]
fn rejects_empty_and_oversized_mapping_lists() {
    let definition = json(
        "org.ex.A",
        1,
        0,
        InterfaceType::Datastream,
        Ownership::Device,
        None,
        vec![],
    );
    assert!(matches!(
        Interface::try_from_json(&definition).unwrap_err(),
        InterfaceError::Mapping(MappingError::Empty)
    ));

    let mut mappings = Vec::new();
    for k in 0..(MAX_INTERFACE_MAPPINGS + 1) {
        mappings.push(Mapping::new(format!("/e{k}"), MappingType::Integer));
    }
    let definition = json(
        "org.ex.A",
        1,
        0,
        InterfaceType::Datastream,
        Ownership::Device,
        None,
        mappings,
    );
    assert!(matches!(
        Interface::try_from_json(&definition).unwrap_err(),
        InterfaceError::Mapping(MappingError::TooMany(_))
    ));
}

#[test]
fn rejects_overlapping_endpoints() {
    // A parameter level overlaps a literal one.
    let definition = device_property("org.ex.P", &["/a/%{x}", "/a/b"]);
    match Interface::try_from_json(&definition).unwrap_err() {
        InterfaceError::Mapping(MappingError::Duplicated { endpoint }) => {
            assert_eq!(endpoint.text, "/a/b");
        }
        other => panic!("expected a duplicated-endpoint error, got {other:?}"),
    }

    // Different literals at the first level do not overlap.
    let definition = device_property("org.ex.P", &["/a/%{x}", "/b/%{y}"]);
    assert!(Interface::try_from_json(&definition).is_ok());
}

#[test]
fn rejects_properties_with_object_aggregation() {
    let definition = json(
        "org.ex.P",
        1,
        0,
        InterfaceType::Properties,
        Ownership::Device,
        Some(Aggregation::Object),
        vec![Mapping::new("/a/b".to_string(), MappingType::Integer)],
    );
    assert!(matches!(
        Interface::try_from_json(&definition).unwrap_err(),
        InterfaceError::PropertiesWithObject
    ));
}

#[test]
fn object_interfaces_share_settings_and_prefix() {
    // Too short for an object.
    let definition = json(
        "org.ex.O",
        1,
        0,
        InterfaceType::Datastream,
        Ownership::Device,
        Some(Aggregation::Object),
        vec![Mapping::new("/v".to_string(), MappingType::Integer)],
    );
    assert!(matches!(
        Interface::try_from_json(&definition).unwrap_err(),
        InterfaceError::Mapping(MappingError::TooShortForObject(_))
    ));

    // Diverging per-mapping settings are rejected.
    let mut second = Mapping::new("/obj/b".to_string(), MappingType::Integer);
    second.explicit_timestamp = Some(true);
    let definition = json(
        "org.ex.O",
        1,
        0,
        InterfaceType::Datastream,
        Ownership::Device,
        Some(Aggregation::Object),
        vec![
            Mapping::new("/obj/a".to_string(), MappingType::Integer),
            second,
        ],
    );
    assert!(matches!(
        Interface::try_from_json(&definition).unwrap_err(),
        InterfaceError::ObjectAttributes
    ));

    // A diverging first level is rejected.
    let definition = json(
        "org.ex.O",
        1,
        0,
        InterfaceType::Datastream,
        Ownership::Device,
        Some(Aggregation::Object),
        vec![
            Mapping::new("/obj/a".to_string(), MappingType::Integer),
            Mapping::new("/other/b".to_string(), MappingType::Integer),
        ],
    );
    assert!(matches!(
        Interface::try_from_json(&definition).unwrap_err(),
        InterfaceError::ObjectPrefix
    ));

    // A well-formed object interface is accepted.
    let definition = json(
        "org.ex.O",
        1,
        0,
        InterfaceType::Datastream,
        Ownership::Device,
        Some(Aggregation::Object),
        vec![
            Mapping::new("/obj/a".to_string(), MappingType::Integer),
            Mapping::new("/obj/b".to_string(), MappingType::Double),
        ],
    );
    let interface = Interface::try_from_json(&definition).unwrap();
    assert_eq!(interface.aggregation(), Aggregation::Object);
}

#[test]
fn serialization_preserves_semantics() {
    let mut mapping = Mapping::new("/a/%{x}".to_string(), MappingType::LongInteger);
    mapping.reliability = Some(astarte_core::schema::Reliability::Guaranteed);
    mapping.retention = Some(astarte_core::schema::Retention::Stored);
    mapping.expiry = Some(30);
    mapping.explicit_timestamp = Some(true);
    let definition = json(
        "org.ex.DS",
        2,
        1,
        InterfaceType::Datastream,
        Ownership::Device,
        None,
        vec![
            mapping,
            Mapping::new("/b/c".to_string(), MappingType::String),
        ],
    );
    let interface = Interface::try_from_json(&definition).unwrap();
    let serialized = interface.to_interface_json();
    // The serialized definition is semantically the original: parsing it
    // again gives an interface with the same observable data.
    assert_eq!(serialized.interface_name, "org.ex.DS");
    assert_eq!(serialized.version_major, 2);
    assert_eq!(serialized.version_minor, 1);
    assert_eq!(serialized.mappings.len(), 2);
    assert_eq!(serialized.mappings[0].endpoint, "/a/%{x}");
    assert_eq!(serialized.mappings[0].expiry, Some(30));
    assert_eq!(serialized.mappings[1].endpoint, "/b/c");
    // Defaults are elided.
    assert_eq!(serialized.mappings[1].reliability, None);
    assert_eq!(serialized.mappings[1].retention, None);
    assert_eq!(serialized.aggregation, None);
    let reparsed = Interface::try_from_json(&serialized).unwrap();
    assert_eq!(reparsed.interface_name(), interface.interface_name());
    assert_eq!(reparsed.version_major(), interface.version_major());
    assert_eq!(reparsed.version_minor(), interface.version_minor());
    assert!(reparsed.is_extension_of(&interface));
    assert!(interface.is_extension_of(&reparsed));
}

#[test]
fn resolves_at_most_one_mapping() {
    let definition = device_property("org.ex.P", &["/a/%{x}", "/b/%{y}", "/c"]);
    let interface = Interface::try_from_json(&definition).unwrap();
    let path = astarte_core::endpoint::MappingPath::try_from_str("/a/v").unwrap();
    assert!(interface.property_mapping(&path).is_some());
    let path = astarte_core::endpoint::MappingPath::try_from_str("/c").unwrap();
    assert!(interface.property_mapping(&path).is_some());
    let path = astarte_core::endpoint::MappingPath::try_from_str("/d").unwrap();
    assert!(interface.property_mapping(&path).is_none());
}
