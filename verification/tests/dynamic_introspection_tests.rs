//! Tests of adding and removing interfaces dynamically, driven through
//! the client and its recorded frames.

use astarte_core::client::DeviceClient;
use astarte_core::client::Frame;
use astarte_core::interface::Interface;
use astarte_core::schema::Aggregation;
use astarte_core::schema::InterfaceJson;
use astarte_core::schema::InterfaceType;
use astarte_core::schema::Mapping;
use astarte_core::schema::MappingType;
use astarte_core::schema::Ownership;

fn interface(
    name: &str,
    major: i32,
    minor: i32,
    interface_type: InterfaceType,
    ownership: Ownership,
    aggregation: Option<Aggregation>,
    endpoints: &[&str],
) -> Interface {
    let definition = InterfaceJson {
        interface_name: name.to_string(),
        version_major: major,
        version_minor: minor,
        interface_type,
        ownership,
        aggregation,
        description: None,
        doc: None,
        mappings: endpoints
            .iter()
            .map(|e| Mapping::new(e.to_string(), MappingType::Integer))
            .collect(),
    };
    Interface::try_from_json(&definition).unwrap()
}

const SERVER_DATASTREAM: &str =
    "org.astarte-platform.rust.examples.individual-datastream.ServerDatastream";

fn four_interfaces() -> Vec<Interface> {
    vec![
        interface(
            "org.ex.DeviceProperty",
            0,
            1,
            InterfaceType::Properties,
            Ownership::Device,
            None,
            &["/sensor/enable"],
        ),
        interface(
            "org.ex.ObjectDeviceDatastream",
            0,
            1,
            InterfaceType::Datastream,
            Ownership::Device,
            Some(Aggregation::Object),
            &["/obj/a", "/obj/b"],
        ),
        interface(
            SERVER_DATASTREAM,
            0,
            1,
            InterfaceType::Datastream,
            Ownership::Server,
            None,
            &["/v"],
        ),
        interface(
            "org.ex.ServerProperty",
            0,
            1,
            InterfaceType::Properties,
            Ownership::Server,
            None,
            &["/sensor/name"],
        ),
    ]
}

#[test]
fn test_add_remove_interface() {
    let mut client = DeviceClient::new("realm".to_string(), "device_id".to_string());

    let added = client
        .add_interface(interface(
            SERVER_DATASTREAM,
            0,
            1,
            InterfaceType::Datastream,
            Ownership::Server,
            None,
            &["/v"],
        ))
        .unwrap();
    assert!(added);

    // The second add of the same interface does nothing.
    let added = client
        .add_interface(interface(
            SERVER_DATASTREAM,
            0,
            1,
            InterfaceType::Datastream,
            Ownership::Server,
            None,
            &["/v"],
        ))
        .unwrap();
    assert!(!added);

    let removed = client.remove_interface(SERVER_DATASTREAM).unwrap();
    assert!(removed);

    let frames = client.take_frames();
    assert_eq!(frames.len(), 4);
    let topic = format!("realm/device_id/{SERVER_DATASTREAM}/#");
    assert!(matches!(&frames[0], Frame::Subscribe { topic: t } if *t == topic));
    assert!(matches!(
        &frames[1],
        Frame::Publish { topic, payload }
            if topic == "realm/device_id"
                && *payload == format!("{SERVER_DATASTREAM}:0:1")
    ));
    assert!(
        matches!(&frames[2], Frame::Publish { topic, payload } if topic == "realm/device_id" && payload.is_empty())
    );
    assert!(matches!(&frames[3], Frame::Unsubscribe { topic: t } if *t == topic));
}

#[test]
fn should_extend_interfaces() {
    let mut client = DeviceClient::new("realm".to_string(), "device_id".to_string());
    let to_add = four_interfaces();
    let mut names: Vec<String> = to_add
        .iter()
        .map(|i| i.interface_name().to_string())
        .collect();
    names.sort();

    let mut res = client.extend_interfaces_vec(to_add).unwrap();
    res.sort();
    assert_eq!(res, names);

    // The introspection string holds the tokens of all four, in name
    // order.
    let intro = client.introspection();
    let mut tokens: Vec<&str> = intro.split(';').collect();
    let sorted = tokens.clone();
    tokens.sort_unstable();
    assert_eq!(tokens, sorted, "the introspection is already sorted");
    assert_eq!(tokens.len(), 4);
}

#[test]
fn should_remove_interfaces() {
    let mut client = DeviceClient::new("realm".to_string(), "device_id".to_string());
    let to_add = four_interfaces();
    let mut names: Vec<String> = to_add
        .iter()
        .map(|i| i.interface_name().to_string())
        .collect();
    client.extend_interfaces_vec(to_add).unwrap();
    names.sort();

    let mut res = client.remove_interfaces_vec(names.clone()).unwrap();
    res.sort();
    assert_eq!(res, names);
    assert_eq!(client.introspection(), "");
}

#[test]
fn should_extend_and_remove_interfaces() {
    let mut client = DeviceClient::new("realm".to_string(), "device_id".to_string());
    let to_add = four_interfaces();
    let mut names: Vec<String> = to_add
        .iter()
        .map(|i| i.interface_name().to_string())
        .collect();
    names.sort();

    let mut res = client.extend_interfaces_vec(to_add).unwrap();
    res.sort();
    assert_eq!(res, names);

    let mut res = client.remove_interfaces_vec(names.clone()).unwrap();
    res.sort();
    assert_eq!(res, names);
}

#[test]
fn should_not_extend_interfaces() {
    let mut client = DeviceClient::new("realm".to_string(), "device_id".to_string());
    let to_add = four_interfaces();
    client.extend_interfaces_vec(four_interfaces()).unwrap();
    client.take_frames();

    // Adding the already-present interfaces again changes nothing.
    let res = client.extend_interfaces_vec(to_add).unwrap();
    assert!(res.is_empty());
    assert!(client.take_frames().is_empty());
}

#[test]
fn should_not_unsubscribe_interfaces() {
    let mut client = DeviceClient::new("realm".to_string(), "device_id".to_string());
    // Only device-owned interfaces: no subscription handling at all.
    let to_add = vec![
        interface(
            "org.ex.DeviceProperty",
            0,
            1,
            InterfaceType::Properties,
            Ownership::Device,
            None,
            &["/sensor/enable"],
        ),
        interface(
            "org.ex.ObjectDeviceDatastream",
            0,
            1,
            InterfaceType::Datastream,
            Ownership::Device,
            Some(Aggregation::Object),
            &["/obj/a", "/obj/b"],
        ),
    ];
    let names: Vec<String> = to_add
        .iter()
        .map(|i| i.interface_name().to_string())
        .collect();
    client.extend_interfaces_vec(to_add).unwrap();
    client.remove_interfaces_vec(names).unwrap();

    for frame in client.take_frames() {
        assert!(
            !matches!(frame, Frame::Subscribe { .. })
                && !matches!(frame, Frame::SubscribeMany { .. })
                && !matches!(frame, Frame::Unsubscribe { .. }),
            "no subscription traffic for device-owned interfaces"
        );
    }
}

#[test]
fn remove_non_existing_interfaces() {
    let mut client = DeviceClient::new("realm".to_string(), "device_id".to_string());

    let res = client
        .remove_interface("com.example.NonExistingInterface")
        .unwrap();
    assert!(!res);

    let res = client
        .remove_interfaces_vec(vec![
            "com.example.NonExistingInterface1".to_string(),
            "com.example.NonExistingInterface2".to_string(),
        ])
        .unwrap();
    assert!(res.is_empty());
    assert!(client.take_frames().is_empty());
}

#[test]
fn should_get_interface() {
    let mut client = DeviceClient::new("realm".to_string(), "device_id".to_string());
    client
        .add_interface(interface(
            "org.astarte-platform.rust.e2etest.DeviceProperty",
            0,
            1,
            InterfaceType::Properties,
            Ownership::Device,
            None,
            &["/sensor/enable"],
        ))
        .unwrap();

    let found = client
        .get_interface("org.astarte-platform.rust.e2etest.DeviceProperty")
        .unwrap();
    assert_eq!(
        found.interface_name(),
        "org.astarte-platform.rust.e2etest.DeviceProperty"
    );

    assert!(client.get_interface("foo.bar").is_none());
}
