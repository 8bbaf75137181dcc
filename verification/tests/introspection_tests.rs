//! Tests of the introspection error context and the registry rules.

use astarte_core::interface::Interface;
use astarte_core::interface::InterfaceError;
use astarte_core::interfaces::AddResult;
use astarte_core::interfaces::Interfaces;
use astarte_core::interfaces::RegistryError;
use astarte_core::introspection::AddInterfaceError;
use astarte_core::schema::InterfaceJson;
use astarte_core::schema::InterfaceType;
use astarte_core::schema::Mapping;
use astarte_core::schema::MappingType;
use astarte_core::schema::Ownership;

#[test]
fn should_add_context_to_err() {
    let ctx = "/foo/bar";

    let original = AddInterfaceError::Interface(InterfaceError::MajorMinor);
    let err = original.add_path_context(ctx.to_string());
    assert!(matches!(
        err,
        AddInterfaceError::InterfaceFile { path, backtrace: InterfaceError::MajorMinor } if path == ctx
    ));

    let original = AddInterfaceError::Io {
        path: "/baz".to_string(),
        backtrace: "foo".to_string(),
    };
    let err = original.add_path_context(ctx.to_string());
    assert!(matches!(
        err,
        AddInterfaceError::Io { path, backtrace: _ } if path == ctx
    ));

    let original = AddInterfaceError::InterfaceFile {
        path: "/baz".to_string(),
        backtrace: InterfaceError::MajorMinor,
    };
    let err = original.add_path_context(ctx.to_string());
    assert!(matches!(
        err,
        AddInterfaceError::InterfaceFile { path, backtrace: InterfaceError::MajorMinor } if path == ctx
    ));
}

fn property(name: &str, major: i32, minor: i32, endpoints: &[&str]) -> Interface {
    let definition = InterfaceJson {
        interface_name: name.to_string(),
        version_major: major,
        version_minor: minor,
        interface_type: InterfaceType::Properties,
        ownership: Ownership::Device,
        aggregation: None,
        description: None,
        doc: None,
        mappings: endpoints
            .iter()
            .map(|e| Mapping::new(e.to_string(), MappingType::Integer))
            .collect(),
    };
    Interface::try_from_json(&definition).unwrap()
}

#[test]
fn registry_add_and_replace_rules() {
    let mut registry = Interfaces::new();
    assert_eq!(
        registry.add(property("org.ex.P", 1, 0, &["/a"])).unwrap(),
        AddResult::Added
    );
    // The same version is left unchanged.
    assert_eq!(
        registry.add(property("org.ex.P", 1, 0, &["/a"])).unwrap(),
        AddResult::Unchanged
    );
    // A minor extension that keeps the old mappings is accepted.
    assert_eq!(
        registry
            .add(property("org.ex.P", 1, 1, &["/a", "/b"]))
            .unwrap(),
        AddResult::Replaced
    );
    // A minor downgrade is rejected.
    assert!(matches!(
        registry
            .add(property("org.ex.P", 1, 0, &["/a"]))
            .unwrap_err(),
        RegistryError::MinorDowngrade
    ));
    // A minor bump that drops a mapping is rejected.
    assert!(matches!(
        registry
            .add(property("org.ex.P", 1, 2, &["/b", "/c"]))
            .unwrap_err(),
        RegistryError::IncompatibleExtension
    ));
    // A new major replaces the interface wholesale.
    assert_eq!(
        registry.add(property("org.ex.P", 2, 0, &["/z"])).unwrap(),
        AddResult::Replaced
    );
    // Removal.
    assert!(registry.remove("org.ex.P"));
    assert!(!registry.remove("org.ex.P"));
}

#[test]
fn registry_introspection_is_canonical() {
    let mut registry = Interfaces::new();
    assert_eq!(registry.introspection(), "");
    registry.add(property("org.ex.Zz", 1, 0, &["/a"])).unwrap();
    registry.add(property("org.ex.Aa", 0, 3, &["/a"])).unwrap();
    registry.add(property("org.ex.Mm", 12, 34, &["/a"])).unwrap();
    assert_eq!(
        registry.introspection(),
        "org.ex.Aa:0:3;org.ex.Mm:12:34;org.ex.Zz:1:0"
    );
}
