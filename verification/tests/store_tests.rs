//! Tests of the property store: the major-version rule on load, unset
//! markers, deletion and the ownership enumerations.

use astarte_core::schema::Ownership;
use astarte_core::store::MemoryStore;
use astarte_core::store::StoredProp;
use astarte_core::types::AstarteData;

fn prop(interface: &str, path: &str, value: i32, major: i32, ownership: Ownership) -> StoredProp {
    StoredProp {
        interface: interface.to_string(),
        path: path.to_string(),
        value: AstarteData::Integer(value),
        interface_major: major,
        ownership,
    }
}

#[test]
fn load_returns_the_value_iff_the_major_matches() {
    let mut store = MemoryStore::new();
    store.store_prop(prop("org.ex.P", "/a", 5, 1, Ownership::Device));

    // Matching major: the stored value comes back.
    let value = store.load_prop("org.ex.P", "/a", 1).unwrap();
    assert!(value.eq(&AstarteData::Integer(5)));

    // Mismatching major: nothing comes back and the stale row is gone.
    assert!(store.load_prop("org.ex.P", "/a", 2).is_none());
    assert!(store.load_prop("org.ex.P", "/a", 1).is_none());
    assert_eq!(store.len(), 0);
}

#[test]
fn store_upserts_by_key() {
    let mut store = MemoryStore::new();
    store.store_prop(prop("org.ex.P", "/a", 5, 1, Ownership::Device));
    store.store_prop(prop("org.ex.P", "/a", 7, 1, Ownership::Device));
    store.store_prop(prop("org.ex.P", "/b", 9, 1, Ownership::Device));
    assert_eq!(store.len(), 2);
    let value = store.load_prop("org.ex.P", "/a", 1).unwrap();
    assert!(value.eq(&AstarteData::Integer(7)));
    let value = store.load_prop("org.ex.P", "/b", 1).unwrap();
    assert!(value.eq(&AstarteData::Integer(9)));
}

#[test]
fn unset_marks_and_delete_removes() {
    let mut store = MemoryStore::new();
    store.store_prop(prop("org.ex.P", "/a", 5, 1, Ownership::Device));

    store.unset_prop("org.ex.P", "/a");
    // The row stays as a marker, but loads as absent.
    assert_eq!(store.len(), 1);
    assert!(store.load_prop("org.ex.P", "/a", 1).is_none());

    store.delete_prop("org.ex.P", "/a");
    assert_eq!(store.len(), 0);

    // Unsetting an absent key leaves no row behind.
    store.unset_prop("org.ex.P", "/a");
    assert_eq!(store.len(), 0);
}

#[test]
fn enumerations_split_by_ownership() {
    let mut store = MemoryStore::new();
    store.store_prop(prop("org.ex.P", "/a", 1, 1, Ownership::Device));
    store.store_prop(prop("org.ex.P", "/b", 2, 1, Ownership::Device));
    store.store_prop(prop("org.ex.S", "/c", 3, 1, Ownership::Server));
    // An unset marker is not enumerated.
    store.unset_prop("org.ex.P", "/b");

    let device = store.device_props();
    assert_eq!(device.len(), 1);
    assert_eq!(device[0].interface, "org.ex.P");
    assert_eq!(device[0].path, "/a");

    let server = store.server_props();
    assert_eq!(server.len(), 1);
    assert_eq!(server[0].interface, "org.ex.S");
    assert_eq!(server[0].path, "/c");
}
