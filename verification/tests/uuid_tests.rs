//! Tests of the UUID values.

use astarte_core::types::AstarteData;
use astarte_core::uuid::BinUuid;
use astarte_core::uuid::StrUuid;
use astarte_core::uuid::parse_uuid;

const TEXT: &str = "6ba7b810-9dad-11d1-80b4-00c04fd430c8";

fn bytes() -> Vec<u8> {
    vec![
        0x6b, 0xa7, 0xb8, 0x10, 0x9d, 0xad, 0x11, 0xd1, 0x80, 0xb4, 0x00, 0xc0, 0x4f, 0xd4, 0x30,
        0xc8,
    ]
}

#[test]
fn parse_and_format_round_trip() {
    let parsed = parse_uuid(TEXT).unwrap();
    assert_eq!(parsed, bytes());
    let uuid = StrUuid::new(parsed).unwrap();
    assert_eq!(uuid.to_string(), TEXT);
    // Uppercase digits are accepted and render back lowercase.
    let upper = TEXT.to_uppercase();
    let reparsed = parse_uuid(&upper).unwrap();
    assert_eq!(reparsed, bytes());
}

#[test]
fn parse_rejects_malformed_uuids() {
    assert!(parse_uuid("").is_none());
    assert!(parse_uuid("6ba7b810").is_none());
    assert!(parse_uuid("6ba7b810-9dad-11d1-80b4-00c04fd430cg").is_none());
    assert!(parse_uuid("6ba7b810x9dad-11d1-80b4-00c04fd430c8").is_none());
}

#[test]
fn bin_uuid_round_trips_through_values() {
    let uuid = BinUuid::new(bytes()).unwrap();
    let value = uuid.to_data();
    assert!(uuid.eq_data(&value));
    let back = BinUuid::try_from(value).unwrap();
    assert_eq!(back.as_bytes(), &bytes());
    // The wrong kind or length is rejected.
    assert!(BinUuid::try_from(AstarteData::Integer(3)).is_err());
    assert!(BinUuid::try_from(AstarteData::BinaryBlob(vec![1, 2, 3])).is_err());
    assert!(!uuid.eq_data(&AstarteData::BinaryBlob(vec![1, 2, 3])));
}

#[test]
fn str_uuid_round_trips_through_values() {
    let uuid = StrUuid::try_from(AstarteData::String(TEXT.to_string())).unwrap();
    assert_eq!(uuid.as_bytes(), &bytes());
    let value = uuid.to_data();
    assert!(uuid.eq_data(&value));
    assert!(uuid.eq_data(&AstarteData::String(TEXT.to_uppercase())));
    assert!(!uuid.eq_data(&AstarteData::String("not a uuid".to_string())));
    assert!(StrUuid::try_from(AstarteData::Integer(3)).is_err());
}

#[test]
fn data_equality_is_by_kind_and_content() {
    assert!(AstarteData::Integer(5).eq(&AstarteData::Integer(5)));
    assert!(!AstarteData::Integer(5).eq(&AstarteData::LongInteger(5)));
    assert!(AstarteData::StringArray(vec!["a".to_string(), "b".to_string()])
        .eq(&AstarteData::StringArray(vec!["a".to_string(), "b".to_string()])));
    assert!(
        !AstarteData::StringArray(vec!["a".to_string()]).eq(&AstarteData::StringArray(vec![
            "b".to_string()
        ]))
    );
    assert!(AstarteData::Double(1.5f64.to_bits()).eq(&AstarteData::Double(1.5f64.to_bits())));
    assert!(!AstarteData::Double(1.5f64.to_bits()).eq(&AstarteData::Double(2.5f64.to_bits())));
}

#[test]
fn parse_accepts_all_four_forms() {
    let simple = TEXT.replace('-', "");
    assert_eq!(parse_uuid(&simple).unwrap(), bytes());
    let braced = format!("{{{TEXT}}}");
    assert_eq!(parse_uuid(&braced).unwrap(), bytes());
    let urn = format!("urn:uuid:{TEXT}");
    assert_eq!(parse_uuid(&urn).unwrap(), bytes());
    // A braced simple form or a mislabeled urn is rejected.
    assert!(parse_uuid(&format!("{{{simple}}}")).is_none());
    assert!(parse_uuid(&format!("urn:uuld:{TEXT}")).is_none());
}

#[test]
fn string_equality_is_format_insensitive() {
    let zero = StrUuid::new(vec![0u8; 16]).unwrap();
    assert!(zero.eq_data(&AstarteData::String(
        "00000000000000000000000000000000".to_string()
    )));
    assert!(zero.eq_data(&AstarteData::String(
        "00000000-0000-0000-0000-000000000000".to_string()
    )));
    assert!(zero.eq_data(&AstarteData::String(
        "{00000000-0000-0000-0000-000000000000}".to_string()
    )));
    assert!(zero.eq_data(&AstarteData::String(
        "urn:uuid:00000000-0000-0000-0000-000000000000".to_string()
    )));
    let uuid = StrUuid::new(bytes()).unwrap();
    assert!(uuid.eq_data(&AstarteData::String(TEXT.replace('-', ""))));
    let parsed = StrUuid::try_from(AstarteData::String(TEXT.replace('-', ""))).unwrap();
    assert_eq!(parsed.as_bytes(), &bytes());
}
