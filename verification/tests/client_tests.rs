//! Tests of the device client: introspection, property dedup, unset and
//! cross-major replacement.

use astarte_core::client::ConnectionStatus;
use astarte_core::client::DeviceClient;
use astarte_core::client::Frame;
use astarte_core::endpoint::MappingPath;
use astarte_core::error::Error;
use astarte_core::error::ValidationError;
use astarte_core::interface::Interface;
use astarte_core::schema::Aggregation;
use astarte_core::schema::InterfaceJson;
use astarte_core::schema::InterfaceType;
use astarte_core::schema::Mapping;
use astarte_core::schema::MappingType;
use astarte_core::schema::Ownership;
use astarte_core::types::AstarteData;

fn interface(
    name: &str,
    major: i32,
    minor: i32,
    interface_type: InterfaceType,
    ownership: Ownership,
    mappings: Vec<Mapping>,
) -> Interface {
    let definition = InterfaceJson {
        interface_name: name.to_string(),
        version_major: major,
        version_minor: minor,
        interface_type,
        ownership,
        aggregation: None,
        description: None,
        doc: None,
        mappings,
    };
    Interface::try_from_json(&definition).unwrap()
}

fn property_interface(name: &str, major: i32, allow_unset: bool) -> Interface {
    let mut mapping = Mapping::new("/a".to_string(), MappingType::Integer);
    if allow_unset {
        mapping.allow_unset = Some(true);
    }
    interface(
        name,
        major,
        0,
        InterfaceType::Properties,
        Ownership::Device,
        vec![mapping],
    )
}

fn client() -> DeviceClient {
    DeviceClient::new("realm".to_string(), "device_id".to_string())
}

#[test]
fn load_and_introspect() {
    let mut client = client();
    let added = client
        .add_interface(interface(
            "org.ex.DeviceDS",
            1,
            0,
            InterfaceType::Datastream,
            Ownership::Device,
            vec![Mapping::new("/v".to_string(), MappingType::Integer)],
        ))
        .unwrap();
    assert!(added);
    assert_eq!(client.introspection(), "org.ex.DeviceDS:1:0");
}

#[test]
fn introspection_is_sorted_and_joined() {
    let mut client = client();
    client
        .add_interface(property_interface("org.ex.B", 1, false))
        .unwrap();
    client
        .add_interface(property_interface("org.ex.A", 2, false))
        .unwrap();
    assert_eq!(client.introspection(), "org.ex.A:2:0;org.ex.B:1:0");
    // Adding in the other order gives the same canonical string.
    let mut other = client;
    other.remove_interface("org.ex.A").unwrap();
    other
        .add_interface(property_interface("org.ex.A", 2, false))
        .unwrap();
    assert_eq!(other.introspection(), "org.ex.A:2:0;org.ex.B:1:0");
}

#[test]
fn property_dedup() {
    let mut client = client();
    client
        .add_interface(property_interface("org.ex.P", 1, false))
        .unwrap();
    client.connect();
    assert_eq!(client.status(), ConnectionStatus::Connected);
    client.take_frames();

    let path = MappingPath::try_from_str("/a").unwrap();
    client
        .send_property("org.ex.P", &path, AstarteData::Integer(5))
        .unwrap();
    client
        .send_property("org.ex.P", &path, AstarteData::Integer(5))
        .unwrap();
    client
        .send_property("org.ex.P", &path, AstarteData::Integer(7))
        .unwrap();

    let frames = client.take_frames();
    assert_eq!(frames.len(), 2, "two publishes: values 5 then 7");
    match &frames[0] {
        Frame::SendProperty {
            interface,
            path,
            value,
        } => {
            assert_eq!(interface, "org.ex.P");
            assert_eq!(path, "/a");
            assert!(value.eq(&AstarteData::Integer(5)));
        }
        other => panic!("expected a property publish, got {other:?}"),
    }
    match &frames[1] {
        Frame::SendProperty { value, .. } => {
            assert!(value.eq(&AstarteData::Integer(7)));
        }
        other => panic!("expected a property publish, got {other:?}"),
    }

    // The store ends with 7 under /a.
    let stored = client.try_load_prop("org.ex.P", &path).unwrap().unwrap();
    assert!(stored.eq(&AstarteData::Integer(7)));
}

#[test]
fn unset_after_store_emits_one_frame_and_clears() {
    let mut client = client();
    client
        .add_interface(property_interface("org.ex.P", 1, true))
        .unwrap();
    client.connect();
    client.take_frames();

    let path = MappingPath::try_from_str("/a").unwrap();
    client
        .send_property("org.ex.P", &path, AstarteData::Integer(5))
        .unwrap();
    client.take_frames();

    client.unset_prop("org.ex.P", &path).unwrap();
    let frames = client.take_frames();
    assert_eq!(frames.len(), 1, "exactly one unset frame");
    assert!(matches!(&frames[0], Frame::UnsetProperty { .. }));

    // A later load finds nothing.
    assert!(client.try_load_prop("org.ex.P", &path).unwrap().is_none());
}

#[test]
fn unset_requires_allow_unset() {
    let mut client = client();
    client
        .add_interface(property_interface("org.ex.P", 1, false))
        .unwrap();
    let path = MappingPath::try_from_str("/a").unwrap();
    assert!(matches!(
        client.unset_prop("org.ex.P", &path).unwrap_err(),
        Error::Validation(ValidationError::UnsetNotAllowed)
    ));
}

#[test]
fn server_owned_add_and_remove() {
    let mut client = client();
    let added = client
        .add_interface(interface(
            "org.ex.SrvDS",
            1,
            0,
            InterfaceType::Datastream,
            Ownership::Server,
            vec![Mapping::new("/v".to_string(), MappingType::Integer)],
        ))
        .unwrap();
    assert!(added);
    let frames = client.take_frames();
    assert_eq!(frames.len(), 2, "subscribe, then the introspection");
    match &frames[0] {
        Frame::Subscribe { topic } => assert_eq!(topic, "realm/device_id/org.ex.SrvDS/#"),
        other => panic!("expected a subscribe, got {other:?}"),
    }
    match &frames[1] {
        Frame::Publish { topic, payload } => {
            assert_eq!(topic, "realm/device_id");
            assert_eq!(payload, "org.ex.SrvDS:1:0");
        }
        other => panic!("expected the introspection publish, got {other:?}"),
    }

    let removed = client.remove_interface("org.ex.SrvDS").unwrap();
    assert!(removed);
    let frames = client.take_frames();
    assert_eq!(frames.len(), 2, "empty introspection, then unsubscribe");
    match &frames[0] {
        Frame::Publish { topic, payload } => {
            assert_eq!(topic, "realm/device_id");
            assert_eq!(payload, "");
        }
        other => panic!("expected the introspection publish, got {other:?}"),
    }
    match &frames[1] {
        Frame::Unsubscribe { topic } => assert_eq!(topic, "realm/device_id/org.ex.SrvDS/#"),
        other => panic!("expected an unsubscribe, got {other:?}"),
    }
}

#[test]
fn cross_major_replacement_drops_stale_rows() {
    let mut client = client();
    client
        .add_interface(property_interface("org.ex.P", 1, false))
        .unwrap();
    client.connect();
    client.take_frames();

    let path = MappingPath::try_from_str("/a").unwrap();
    client
        .send_property("org.ex.P", &path, AstarteData::Integer(5))
        .unwrap();
    client.take_frames();

    // Version 2 with a different major replaces the interface.
    let added = client
        .add_interface(property_interface("org.ex.P", 2, false))
        .unwrap();
    assert!(added);
    client.take_frames();

    // The stored row is bound to major 1: a load under the new major
    // finds nothing and drops the stale row.
    assert!(client.try_load_prop("org.ex.P", &path).unwrap().is_none());

    // A fresh publish on the new major proceeds normally.
    client
        .send_property("org.ex.P", &path, AstarteData::Integer(9))
        .unwrap();
    let frames = client.take_frames();
    assert_eq!(frames.len(), 1);
    assert!(matches!(&frames[0], Frame::SendProperty { .. }));
}

#[test]
fn connect_publishes_introspection_and_resyncs() {
    let mut client = client();
    client
        .add_interface(property_interface("org.ex.P", 1, false))
        .unwrap();
    client
        .add_interface(interface(
            "org.ex.Srv",
            0,
            1,
            InterfaceType::Datastream,
            Ownership::Server,
            vec![Mapping::new("/v".to_string(), MappingType::Integer)],
        ))
        .unwrap();
    let path = MappingPath::try_from_str("/a").unwrap();
    client
        .send_property("org.ex.P", &path, AstarteData::Integer(5))
        .unwrap();
    client.take_frames();

    client.connect();
    let frames = client.take_frames();
    assert_eq!(
        frames.len(),
        3,
        "batched subscribe, introspection, property resync"
    );
    match &frames[0] {
        Frame::SubscribeMany { topics } => {
            assert_eq!(topics.len(), 1);
            assert_eq!(topics[0], "realm/device_id/org.ex.Srv/#");
        }
        other => panic!("expected the batched subscribe, got {other:?}"),
    }
    match &frames[1] {
        Frame::Publish { topic, payload } => {
            assert_eq!(topic, "realm/device_id");
            assert_eq!(payload, "org.ex.P:1:0;org.ex.Srv:0:1");
        }
        other => panic!("expected the introspection publish, got {other:?}"),
    }
    match &frames[2] {
        Frame::SendProperty {
            interface, value, ..
        } => {
            assert_eq!(interface, "org.ex.P");
            assert!(value.eq(&AstarteData::Integer(5)));
        }
        other => panic!("expected the property resync, got {other:?}"),
    }
}

#[test]
fn send_validates_the_publish() {
    let mut client = client();
    client
        .add_interface(property_interface("org.ex.P", 1, false))
        .unwrap();
    let path = MappingPath::try_from_str("/a").unwrap();

    assert!(matches!(
        client
            .send_property("org.ex.Missing", &path, AstarteData::Integer(1))
            .unwrap_err(),
        Error::Validation(ValidationError::InterfaceNotFound { .. })
    ));

    let other = MappingPath::try_from_str("/nope").unwrap();
    assert!(matches!(
        client
            .send_property("org.ex.P", &other, AstarteData::Integer(1))
            .unwrap_err(),
        Error::Validation(ValidationError::MappingNotFound { .. })
    ));

    assert!(matches!(
        client
            .send_property("org.ex.P", &path, AstarteData::Boolean(true))
            .unwrap_err(),
        Error::Validation(ValidationError::MappingType)
    ));

    // A server-owned interface cannot be published by the device.
    client
        .add_interface(interface(
            "org.ex.Srv",
            1,
            0,
            InterfaceType::Properties,
            Ownership::Server,
            vec![Mapping::new("/a".to_string(), MappingType::Integer)],
        ))
        .unwrap();
    assert!(matches!(
        client
            .send_property("org.ex.Srv", &path, AstarteData::Integer(1))
            .unwrap_err(),
        Error::Validation(ValidationError::Ownership)
    ));

    // A datastream interface is not a property target.
    client
        .add_interface(interface(
            "org.ex.DS",
            1,
            0,
            InterfaceType::Datastream,
            Ownership::Device,
            vec![Mapping::new("/a".to_string(), MappingType::Integer)],
        ))
        .unwrap();
    assert!(matches!(
        client
            .send_property("org.ex.DS", &path, AstarteData::Integer(1))
            .unwrap_err(),
        Error::Validation(ValidationError::NotProperties)
    ));
}

#[test]
fn rejects_non_finite_doubles() {
    let mut client = client();
    let mut mapping = Mapping::new("/a".to_string(), MappingType::Double);
    mapping.allow_unset = None;
    client
        .add_interface(interface(
            "org.ex.D",
            1,
            0,
            InterfaceType::Properties,
            Ownership::Device,
            vec![mapping],
        ))
        .unwrap();
    let path = MappingPath::try_from_str("/a").unwrap();
    assert!(matches!(
        client
            .send_property("org.ex.D", &path, AstarteData::Double(f64::NAN.to_bits()))
            .unwrap_err(),
        Error::Validation(ValidationError::NotFinite)
    ));
    assert!(client
        .send_property("org.ex.D", &path, AstarteData::Double(11.3f64.to_bits()))
        .is_ok());
}

#[test]
fn disconnected_publishes_persist_without_emitting() {
    let mut client = client();
    client
        .add_interface(property_interface("org.ex.P", 1, false))
        .unwrap();
    client.take_frames();
    assert_eq!(client.status(), ConnectionStatus::Disconnected);

    let path = MappingPath::try_from_str("/a").unwrap();
    client
        .send_property("org.ex.P", &path, AstarteData::Integer(5))
        .unwrap();
    assert!(client.take_frames().is_empty());
    let stored = client.try_load_prop("org.ex.P", &path).unwrap().unwrap();
    assert!(stored.eq(&AstarteData::Integer(5)));
}
