//! The JSON shape of an interface definition.
//!
//! [`InterfaceJson`] and [`Mapping`] mirror the interface schema field by
//! field.  They are turned into the validated in-memory form by the
//! [`interface`](crate::interface) module; the functions here resolve the
//! raw `retention`/`expiry` and `database_retention_*` field pairs into the
//! semantic [`Retention`](crate::interface::Retention) and
//! [`DatabaseRetention`](crate::interface::DatabaseRetention) unions.

use vstd::prelude::*;

use crate::interface::DatabaseRetention as InterfaceDatabaseRetention;
use crate::interface::Retention as InterfaceRetention;

verus! {

/// Error when validating the fields of a [`Mapping`].
#[derive(Debug, Clone, Copy, PartialEq, Eq, Structural)]
pub enum SchemaError {
    /// The expiry cannot be negative.
    NegativeExpiry(i64),
    /// The database retention ttl cannot be negative.
    NegativeDatabaseRetentionTtl(i64),
    /// The database retention ttl must be at least 60 seconds.
    DatabaseRetentionTtlTooLow(u64),
    /// The database retention policy is `use_ttl` but no ttl is given.
    MissingDatabaseRetentionTtl,
}

/// Type of an interface: a stream of non-persistent data or a stateful
/// value.
#[derive(Debug, Clone, Copy, PartialEq, Eq, Structural)]
pub enum InterfaceType {
    /// Stream of non-persistent data.
    Datastream,
    /// Stateful value.
    Properties,
}

impl InterfaceType {
    /// The snake_case name of the variant.
    pub fn as_str(&self) -> (r: &str)
        ensures
            r@ == self.str_spec(),
    {
        match self {
            InterfaceType::Datastream => "datastream",
            InterfaceType::Properties => "properties",
        }
    }

    /// The characters of the snake_case name of the variant.
    pub open spec fn str_spec(&self) -> Seq<char> {
        match self {
            InterfaceType::Datastream => "datastream"@,
            InterfaceType::Properties => "properties"@,
        }
    }
}

/// Ownership of an interface: who sends data on it.
#[derive(Debug, Clone, Copy, PartialEq, Eq, Structural)]
pub enum Ownership {
    /// Data is sent from the device to the platform.
    Device,
    /// Data is received from the platform.
    Server,
}

impl Ownership {
    /// Returns `true` if the ownership is [`Device`](Ownership::Device).
    pub fn is_device(&self) -> (r: bool)
        ensures
            r == (self is Device),
    {
        matches!(self, Ownership::Device)
    }

    /// Returns `true` if the ownership is [`Server`](Ownership::Server).
    pub fn is_server(&self) -> (r: bool)
        ensures
            r == (self is Server),
    {
        matches!(self, Ownership::Server)
    }

    /// The snake_case name of the variant.
    pub fn as_str(&self) -> (r: &str)
        ensures
            r@ == self.str_spec(),
    {
        match self {
            Ownership::Device => "device",
            Ownership::Server => "server",
        }
    }

    /// The characters of the snake_case name of the variant.
    pub open spec fn str_spec(&self) -> Seq<char> {
        match self {
            Ownership::Device => "device"@,
            Ownership::Server => "server"@,
        }
    }
}

/// Aggregation of the mappings of an interface.
#[derive(Debug, Clone, Copy, PartialEq, Eq, Structural)]
pub enum Aggregation {
    /// Every mapping changes state or streams data independently.
    Individual,
    /// All the data of the mappings is sent together as one object.
    Object,
}

impl Default for Aggregation {
    fn default() -> (r: Self)
        ensures
            r == Aggregation::Individual,
    {
        Aggregation::Individual
    }
}

impl Aggregation {
    /// The snake_case name of the variant.
    pub fn as_str(&self) -> (r: &str)
        ensures
            r@ == self.str_spec(),
    {
        match self {
            Aggregation::Individual => "individual",
            Aggregation::Object => "object",
        }
    }

    /// The characters of the snake_case name of the variant.
    pub open spec fn str_spec(&self) -> Seq<char> {
        match self {
            Aggregation::Individual => "individual"@,
            Aggregation::Object => "object"@,
        }
    }
}

/// The type of the values published on a mapping.
#[derive(Debug, Clone, Copy, PartialEq, Eq, Structural)]
pub enum MappingType {
    /// Double mapping.
    Double,
    /// Integer mapping.
    Integer,
    /// Boolean mapping.
    Boolean,
    /// Long integer mapping.
    LongInteger,
    /// String mapping.
    String,
    /// Binary mapping.
    BinaryBlob,
    /// Date time mapping.
    DateTime,
    /// Double array mapping.
    DoubleArray,
    /// Integer array mapping.
    IntegerArray,
    /// Boolean array mapping.
    BooleanArray,
    /// Long integer array mapping.
    LongIntegerArray,
    /// String array mapping.
    StringArray,
    /// Binary array mapping.
    BinaryBlobArray,
    /// Date time array mapping.
    DateTimeArray,
}

impl MappingType {
    /// The lowercase name of the variant.
    pub fn as_str(&self) -> (r: &str)
        ensures
            r@ == self.str_spec(),
    {
        match self {
            MappingType::Double => "double",
            MappingType::Integer => "integer",
            MappingType::Boolean => "boolean",
            MappingType::LongInteger => "longinteger",
            MappingType::String => "string",
            MappingType::BinaryBlob => "binaryblob",
            MappingType::DateTime => "datetime",
            MappingType::DoubleArray => "doublearray",
            MappingType::IntegerArray => "integerarray",
            MappingType::BooleanArray => "booleanarray",
            MappingType::LongIntegerArray => "longintegerarray",
            MappingType::StringArray => "stringarray",
            MappingType::BinaryBlobArray => "binaryblobarray",
            MappingType::DateTimeArray => "datetimearray",
        }
    }

    /// The characters of the lowercase name of the variant.
    pub open spec fn str_spec(&self) -> Seq<char> {
        match self {
            MappingType::Double => "double"@,
            MappingType::Integer => "integer"@,
            MappingType::Boolean => "boolean"@,
            MappingType::LongInteger => "longinteger"@,
            MappingType::String => "string"@,
            MappingType::BinaryBlob => "binaryblob"@,
            MappingType::DateTime => "datetime"@,
            MappingType::DoubleArray => "doublearray"@,
            MappingType::IntegerArray => "integerarray"@,
            MappingType::BooleanArray => "booleanarray"@,
            MappingType::LongIntegerArray => "longintegerarray"@,
            MappingType::StringArray => "stringarray"@,
            MappingType::BinaryBlobArray => "binaryblobarray"@,
            MappingType::DateTimeArray => "datetimearray"@,
        }
    }
}

/// Reliability of a data stream: when the sent data is considered
/// delivered.
#[derive(Debug, Clone, Copy, PartialEq, Eq, Structural)]
pub enum Reliability {
    /// Delivered when the transport sends the data.
    Unreliable,
    /// Delivered when the data has been received at least once.
    Guaranteed,
    /// Delivered when the data has been received exactly once.
    Unique,
}

impl Default for Reliability {
    fn default() -> (r: Self)
        ensures
            r == Reliability::Unreliable,
    {
        Reliability::Unreliable
    }
}

impl Reliability {
    /// Returns `true` if the reliability is
    /// [`Unreliable`](Reliability::Unreliable).
    pub fn is_unreliable(&self) -> (r: bool)
        ensures
            r == (self is Unreliable),
    {
        matches!(self, Reliability::Unreliable)
    }
}

/// Raw retention field of a mapping: what to do with sent data that the
/// transport cannot deliver.
#[derive(Debug, Clone, Copy, PartialEq, Eq, Structural)]
pub enum Retention {
    /// Data is discarded.
    Discard,
    /// Data is kept in a cache in memory.
    Volatile,
    /// Data is kept on disk.
    Stored,
}

impl Default for Retention {
    fn default() -> (r: Self)
        ensures
            r == Retention::Discard,
    {
        Retention::Discard
    }
}

/// Raw database retention policy field of a mapping.
#[derive(Debug, Clone, Copy, PartialEq, Eq, Structural)]
pub enum DatabaseRetentionPolicy {
    /// The data never expires from the database.
    NoTtl,
    /// The data expires from the database after
    /// [`database_retention_ttl`](Mapping::database_retention_ttl) seconds.
    UseTtl,
}

impl Default for DatabaseRetentionPolicy {
    fn default() -> (r: Self)
        ensures
            r == DatabaseRetentionPolicy::NoTtl,
    {
        DatabaseRetentionPolicy::NoTtl
    }
}

/// One mapping of an interface definition, as it stands in the JSON: the
/// optional fields are still unresolved.
#[derive(Debug)]
pub struct Mapping {
    /// Path of the mapping, possibly parameterized.
    pub endpoint: String,
    /// Type of the data published on the mapping.
    pub mapping_type: MappingType,
    /// When to consider the data delivered; datastream only.
    pub reliability: Option<Reliability>,
    /// Whether the sender supplies the timestamp; datastream only.
    pub explicit_timestamp: Option<bool>,
    /// What to do with undeliverable data; datastream only.
    pub retention: Option<Retention>,
    /// Seconds before undeliverable retained data is dropped; `<= 0` means
    /// never.
    pub expiry: Option<i64>,
    /// Whether data expires from the database; datastream only.
    pub database_retention_policy: Option<DatabaseRetentionPolicy>,
    /// Seconds the data is kept in the database under `use_ttl`.
    pub database_retention_ttl: Option<i64>,
    /// Whether the property can be unset; properties only.
    pub allow_unset: Option<bool>,
    /// Optional description of the mapping.
    pub description: Option<String>,
    /// Optional documentation of the mapping.
    pub doc: Option<String>,
}

impl Mapping {
    /// A mapping with the given endpoint and type and every optional field
    /// absent.
    pub fn new(endpoint: String, mapping_type: MappingType) -> (r: Mapping)
        ensures
            r.endpoint == endpoint,
            r.mapping_type == mapping_type,
            r.reliability is None,
            r.explicit_timestamp is None,
            r.retention is None,
            r.expiry is None,
            r.database_retention_policy is None,
            r.database_retention_ttl is None,
            r.allow_unset is None,
            r.description is None,
            r.doc is None,
    {
        Mapping {
            endpoint,
            mapping_type,
            reliability: None,
            explicit_timestamp: None,
            retention: None,
            expiry: None,
            database_retention_policy: None,
            database_retention_ttl: None,
            allow_unset: None,
            description: None,
            doc: None,
        }
    }

    /// The expiry resolved to seconds: absent or zero means the stream
    /// never expires, a negative value is rejected.
    pub open spec fn spec_expiry(&self) -> Result<Option<u64>, SchemaError> {
        match self.expiry {
            Option::None => Ok(None),
            Option::Some(e) => if e == 0 {
                Ok(None)
            } else if e < 0 {
                Err(SchemaError::NegativeExpiry(e))
            } else {
                Ok(Some(e as u64))
            },
        }
    }

    /// Expiry of the data stream in seconds; `None` if it never expires.
    pub fn expiry_as_duration(&self) -> (r: Result<Option<u64>, SchemaError>)
        ensures
            r == self.spec_expiry(),
    {
        match self.expiry {
            None => Ok(None),
            Some(e) => {
                if e == 0 {
                    Ok(None)
                } else if e < 0 {
                    Err(SchemaError::NegativeExpiry(e))
                } else {
                    Ok(Some(e as u64))
                }
            },
        }
    }

    /// The raw `retention` and `expiry` fields resolved to the semantic
    /// [`Retention`](InterfaceRetention) union.  A positive expiry under
    /// `discard` is tolerated and dropped.
    pub open spec fn spec_retention(&self) -> Result<InterfaceRetention, SchemaError> {
        let retention = match self.retention {
            Option::Some(ret) => ret,
            Option::None => Retention::Discard,
        };
        match retention {
            Retention::Discard => Ok(InterfaceRetention::Discard),
            Retention::Volatile => match self.spec_expiry() {
                Ok(expiry) => Ok(InterfaceRetention::Volatile { expiry }),
                Err(e) => Err(e),
            },
            Retention::Stored => match self.spec_expiry() {
                Ok(expiry) => Ok(InterfaceRetention::Stored { expiry }),
                Err(e) => Err(e),
            },
        }
    }

    /// Retention of the data stream with its expiry resolved.
    pub fn retention_with_expiry(&self) -> (r: Result<InterfaceRetention, SchemaError>)
        ensures
            r == self.spec_retention(),
    {
        let retention = match self.retention {
            Some(ret) => ret,
            None => Retention::Discard,
        };
        match retention {
            Retention::Discard => Ok(InterfaceRetention::Discard),
            Retention::Volatile => match self.expiry_as_duration() {
                Ok(expiry) => Ok(InterfaceRetention::Volatile { expiry }),
                Err(e) => Err(e),
            },
            Retention::Stored => match self.expiry_as_duration() {
                Ok(expiry) => Ok(InterfaceRetention::Stored { expiry }),
                Err(e) => Err(e),
            },
        }
    }

    /// The database retention ttl resolved to seconds: absent means no
    /// ttl, a negative value or one under 60 seconds is rejected.
    pub open spec fn spec_database_retention_ttl(&self) -> Result<Option<u64>, SchemaError> {
        match self.database_retention_ttl {
            Option::None => Ok(None),
            Option::Some(t) => if t < 0 {
                Err(SchemaError::NegativeDatabaseRetentionTtl(t))
            } else if t < 60 {
                Err(SchemaError::DatabaseRetentionTtlTooLow(t as u64))
            } else {
                Ok(Some(t as u64))
            },
        }
    }

    /// Database retention ttl of the data stream in seconds; `None` if the
    /// data never expires from the database.
    pub fn database_retention_ttl_as_duration(&self) -> (r: Result<Option<u64>, SchemaError>)
        ensures
            r == self.spec_database_retention_ttl(),
    {
        match self.database_retention_ttl {
            None => Ok(None),
            Some(t) => {
                if t < 0 {
                    Err(SchemaError::NegativeDatabaseRetentionTtl(t))
                } else if t < 60 {
                    Err(SchemaError::DatabaseRetentionTtlTooLow(t as u64))
                } else {
                    Ok(Some(t as u64))
                }
            },
        }
    }

    /// The raw `database_retention_policy` and `database_retention_ttl`
    /// fields resolved to the semantic [`DatabaseRetention`]
    /// (InterfaceDatabaseRetention) union.  A ttl under `no_ttl` is
    /// tolerated and dropped; `use_ttl` without a ttl is rejected.
    pub open spec fn spec_database_retention(&self) -> Result<
        InterfaceDatabaseRetention,
        SchemaError,
    > {
        let policy = match self.database_retention_policy {
            Option::Some(p) => p,
            Option::None => DatabaseRetentionPolicy::NoTtl,
        };
        match policy {
            DatabaseRetentionPolicy::NoTtl => Ok(InterfaceDatabaseRetention::NoTtl),
            DatabaseRetentionPolicy::UseTtl => match self.spec_database_retention_ttl() {
                Ok(Option::Some(ttl)) => Ok(InterfaceDatabaseRetention::UseTtl { ttl }),
                Ok(Option::None) => Err(SchemaError::MissingDatabaseRetentionTtl),
                Err(e) => Err(e),
            },
        }
    }

    /// Database retention of the data stream with its ttl resolved.
    pub fn database_retention_with_ttl(&self) -> (r: Result<
        InterfaceDatabaseRetention,
        SchemaError,
    >)
        ensures
            r == self.spec_database_retention(),
    {
        let policy = match self.database_retention_policy {
            Some(p) => p,
            None => DatabaseRetentionPolicy::NoTtl,
        };
        match policy {
            DatabaseRetentionPolicy::NoTtl => Ok(InterfaceDatabaseRetention::NoTtl),
            DatabaseRetentionPolicy::UseTtl => match self.database_retention_ttl_as_duration() {
                Ok(Some(ttl)) => Ok(InterfaceDatabaseRetention::UseTtl { ttl }),
                Ok(None) => Err(SchemaError::MissingDatabaseRetentionTtl),
                Err(e) => Err(e),
            },
        }
    }
}

/// A database retention ttl under 60 seconds is always rejected, and
/// `use_ttl` without a ttl is rejected.
pub proof fn lemma_database_retention_rejected(m: Mapping)
    ensures
        (m.database_retention_ttl matches Some(t) && t < 60)
            ==> m.spec_database_retention_ttl() is Err,
        (m.database_retention_policy == Some(DatabaseRetentionPolicy::UseTtl)
            && m.database_retention_ttl is None) ==> m.spec_database_retention() == Result::<
            InterfaceDatabaseRetention,
            SchemaError,
        >::Err(SchemaError::MissingDatabaseRetentionTtl),
        (m.database_retention_policy == Some(DatabaseRetentionPolicy::UseTtl)
            && m.spec_database_retention_ttl() is Err) ==> m.spec_database_retention() is Err,
{
}

/// A negative expiry is rejected, and an absent or zero expiry means
/// exactly that the stream never expires.
pub proof fn lemma_expiry_rejected(m: Mapping)
    ensures
        (m.expiry matches Some(e) && e < 0) ==> m.spec_expiry() == Result::<
            Option<u64>,
            SchemaError,
        >::Err(SchemaError::NegativeExpiry(m.expiry->0)),
        (m.expiry is None || m.expiry == Some(0i64)) <==> m.spec_expiry() == Result::<
            Option<u64>,
            SchemaError,
        >::Ok(None),
{
}

/// An interface definition, as it stands in the JSON.
#[derive(Debug)]
pub struct InterfaceJson {
    /// Unique reverse-DNS name of the interface.
    pub interface_name: String,
    /// Major version; interfaces that differ in it are incompatible.
    pub version_major: i32,
    /// Minor version; compatible changes may only add mappings.
    pub version_minor: i32,
    /// Type of the interface.
    pub interface_type: InterfaceType,
    /// Who sends data on the interface.
    pub ownership: Ownership,
    /// How the mappings publish: independently or as one object.
    pub aggregation: Option<Aggregation>,
    /// Optional description of the interface.
    pub description: Option<String>,
    /// Optional documentation of the interface.
    pub doc: Option<String>,
    /// The endpoints of the interface.
    pub mappings: Vec<Mapping>,
}

} // verus!
