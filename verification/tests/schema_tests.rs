//! Tests of the raw schema: expiry, retention and database retention
//! resolution.

use astarte_core::interface::DatabaseRetention;
use astarte_core::interface::Retention as InterfaceRetention;
use astarte_core::schema::Mapping;
use astarte_core::schema::MappingType;
use astarte_core::schema::Retention;
use astarte_core::schema::SchemaError;

fn mapping_with_expiry(expiry: i64) -> Mapping {
    let mut m = Mapping::new("/double_endpoint".to_string(), MappingType::Double);
    m.expiry = Some(expiry);
    m
}

fn mapping_with_ttl(ttl: i64) -> Mapping {
    let mut m = Mapping::new("/double_endpoint".to_string(), MappingType::Double);
    m.database_retention_policy = Some(astarte_core::schema::DatabaseRetentionPolicy::UseTtl);
    m.database_retention_ttl = Some(ttl);
    m
}

#[test]
fn should_get_expiry() {
    let mapping = mapping_with_expiry(10);
    assert_eq!(mapping.expiry, Some(10));
    assert_eq!(mapping.expiry_as_duration().unwrap(), Some(10));

    let mapping = mapping_with_expiry(-42);
    assert_eq!(mapping.expiry, Some(-42));
    assert!(matches!(
        mapping.expiry_as_duration().unwrap_err(),
        SchemaError::NegativeExpiry(-42)
    ));

    let mapping = mapping_with_expiry(0);
    assert_eq!(mapping.expiry, Some(0));
    assert_eq!(mapping.expiry_as_duration().unwrap(), None);

    let mapping = mapping_with_expiry(1);
    assert_eq!(mapping.expiry, Some(1));
    assert_eq!(mapping.expiry_as_duration().unwrap(), Some(1));
}

#[test]
fn should_get_retention() {
    let mapping = mapping_with_ttl(60);
    assert_eq!(mapping.database_retention_ttl, Some(60));
    assert_eq!(
        mapping.database_retention_with_ttl().unwrap(),
        DatabaseRetention::UseTtl { ttl: 60 }
    );

    let mapping = mapping_with_ttl(0);
    assert_eq!(mapping.database_retention_ttl, Some(0));
    assert!(matches!(
        mapping.database_retention_with_ttl().unwrap_err(),
        SchemaError::DatabaseRetentionTtlTooLow(0)
    ));

    let mapping = mapping_with_ttl(-32);
    assert_eq!(mapping.database_retention_ttl, Some(-32));
    assert!(matches!(
        mapping.database_retention_with_ttl().unwrap_err(),
        SchemaError::NegativeDatabaseRetentionTtl(-32)
    ));
}

#[test]
fn database_retention_ttl_rules() {
    // ttl just under the floor is rejected with the low-ttl error.
    let mapping = mapping_with_ttl(59);
    assert!(matches!(
        mapping.database_retention_with_ttl().unwrap_err(),
        SchemaError::DatabaseRetentionTtlTooLow(59)
    ));

    // A negative ttl is rejected as negative, not as low.
    let mapping = mapping_with_ttl(-1);
    assert!(matches!(
        mapping.database_retention_with_ttl().unwrap_err(),
        SchemaError::NegativeDatabaseRetentionTtl(-1)
    ));

    // use_ttl without a ttl is rejected.
    let mut mapping = Mapping::new("/a".to_string(), MappingType::Double);
    mapping.database_retention_policy = Some(astarte_core::schema::DatabaseRetentionPolicy::UseTtl);
    assert!(matches!(
        mapping.database_retention_with_ttl().unwrap_err(),
        SchemaError::MissingDatabaseRetentionTtl
    ));

    // no_ttl tolerates a ttl and drops it.
    let mut mapping = mapping_with_ttl(10);
    mapping.database_retention_policy = None;
    assert_eq!(
        mapping.database_retention_with_ttl().unwrap(),
        DatabaseRetention::NoTtl
    );
}

#[test]
fn retention_with_expiry_rules() {
    // Discard tolerates an expiry and drops it.
    let mut mapping = mapping_with_expiry(10);
    mapping.retention = Some(Retention::Discard);
    assert_eq!(
        mapping.retention_with_expiry().unwrap(),
        InterfaceRetention::Discard
    );

    // Volatile and stored carry the expiry; zero means never.
    let mut mapping = mapping_with_expiry(10);
    mapping.retention = Some(Retention::Volatile);
    assert_eq!(
        mapping.retention_with_expiry().unwrap(),
        InterfaceRetention::Volatile { expiry: Some(10) }
    );

    let mut mapping = mapping_with_expiry(0);
    mapping.retention = Some(Retention::Stored);
    assert_eq!(
        mapping.retention_with_expiry().unwrap(),
        InterfaceRetention::Stored { expiry: None }
    );

    // A negative expiry is rejected for the retained policies.
    let mut mapping = mapping_with_expiry(-3);
    mapping.retention = Some(Retention::Stored);
    assert!(matches!(
        mapping.retention_with_expiry().unwrap_err(),
        SchemaError::NegativeExpiry(-3)
    ));
}
