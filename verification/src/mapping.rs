//! Validated mappings of an interface.
//!
//! A raw [`Mapping`](crate::schema::Mapping) is checked and turned into the
//! typed form that matches the interface it belongs to: datastream with
//! individual aggregation, datastream with object aggregation, or
//! properties.

use vstd::prelude::*;

use crate::endpoint::Endpoint;
use crate::endpoint::EndpointError;
use crate::endpoint::LevelView;
use crate::endpoint::endpoint_levels;
use crate::endpoint::valid_endpoint;
use crate::interface::DatabaseRetention;
use crate::interface::Retention;
use crate::schema::Mapping;
use crate::schema::MappingType;
use crate::schema::Reliability;
use crate::schema::SchemaError;

verus! {

/// Error returned by the interface mappings.
#[derive(Debug)]
pub enum MappingError {
    /// An interface must have at least one mapping.
    Empty,
    /// An interface can have at most
    /// [`MAX_INTERFACE_MAPPINGS`](crate::interface::MAX_INTERFACE_MAPPINGS)
    /// mappings.
    TooMany(usize),
    /// The endpoints of the mappings of an interface must not overlap.
    Duplicated {
        /// The first duplicated endpoint.
        endpoint: EndpointText,
    },
    /// The mapping's endpoint could not be parsed.
    Endpoint(EndpointError),
    /// The endpoints of an object interface must have at least 2 levels.
    TooShortForObject(EndpointText),
    /// The raw retention fields of the mapping are invalid.
    Schema(SchemaError),
}

/// The endpoint string carried by a [`MappingError`].
#[derive(Debug)]
pub struct EndpointText {
    /// The textual form of the endpoint.
    pub text: String,
}

impl Clone for EndpointText {
    fn clone(&self) -> (r: Self)
        ensures
            r.text@ == self.text@,
    {
        EndpointText { text: self.text.clone() }
    }
}

impl Clone for MappingError {
    fn clone(&self) -> (r: Self)
        ensures
            r == self,
    {
        match self {
            MappingError::Empty => MappingError::Empty,
            MappingError::TooMany(n) => MappingError::TooMany(*n),
            MappingError::Duplicated { endpoint } => MappingError::Duplicated {
                endpoint: EndpointText { text: endpoint.text.clone() },
            },
            MappingError::Endpoint(e) => MappingError::Endpoint(*e),
            MappingError::TooShortForObject(t) => MappingError::TooShortForObject(
                EndpointText { text: t.text.clone() },
            ),
            MappingError::Schema(e) => MappingError::Schema(*e),
        }
    }
}

/// Mapping of an interface.
pub trait InterfaceMapping {
    /// The levels of the endpoint of the mapping.
    spec fn spec_endpoint(&self) -> Seq<LevelView>;

    /// The type of the values of the mapping.
    spec fn spec_mapping_type(&self) -> MappingType;

    /// Returns a reference to the endpoint of the mapping.
    fn endpoint(&self) -> (r: &Endpoint)
        ensures
            r@ == self.spec_endpoint(),
    ;

    /// Returns the mapping type.
    fn mapping_type(&self) -> (r: MappingType)
        ensures
            r == self.spec_mapping_type(),
    ;
}

/// Mathematical value of a [`DatastreamIndividualMapping`].
pub struct DatastreamIndividualMappingView {
    pub endpoint: Seq<LevelView>,
    pub mapping_type: MappingType,
    pub reliability: Reliability,
    pub retention: Retention,
    pub database_retention: DatabaseRetention,
    pub explicit_timestamp: bool,
}

/// A raw mapping is acceptable for a datastream interface with individual
/// aggregation: the endpoint parses and the retention fields resolve.
/// `allow_unset` is tolerated and dropped.
pub open spec fn individual_mapping_ok(m: &Mapping) -> bool {
    &&& valid_endpoint(m.endpoint@)
    &&& m.spec_retention() is Ok
    &&& m.spec_database_retention() is Ok
}

/// The mapping denoted by an acceptable raw datastream-individual mapping.
pub open spec fn individual_mapping_view(m: &Mapping) -> DatastreamIndividualMappingView {
    DatastreamIndividualMappingView {
        endpoint: endpoint_levels(m.endpoint@),
        mapping_type: m.mapping_type,
        reliability: match m.reliability {
            Option::Some(r) => r,
            Option::None => Reliability::Unreliable,
        },
        retention: m.spec_retention()->Ok_0,
        database_retention: m.spec_database_retention()->Ok_0,
        explicit_timestamp: match m.explicit_timestamp {
            Option::Some(t) => t,
            Option::None => false,
        },
    }
}

/// Mapping of a datastream interface with individual aggregation.
#[derive(Debug)]
pub struct DatastreamIndividualMapping {
    pub(crate) endpoint: Endpoint,
    pub(crate) mapping_type: MappingType,
    pub(crate) reliability: Reliability,
    pub(crate) retention: Retention,
    pub(crate) database_retention: DatabaseRetention,
    pub(crate) explicit_timestamp: bool,
}

impl View for DatastreamIndividualMapping {
    type V = DatastreamIndividualMappingView;

    closed spec fn view(&self) -> DatastreamIndividualMappingView {
        DatastreamIndividualMappingView {
            endpoint: self.endpoint@,
            mapping_type: self.mapping_type,
            reliability: self.reliability,
            retention: self.retention,
            database_retention: self.database_retention,
            explicit_timestamp: self.explicit_timestamp,
        }
    }
}

impl DeepView for DatastreamIndividualMapping {
    type V = DatastreamIndividualMappingView;

    open spec fn deep_view(&self) -> DatastreamIndividualMappingView {
        self.view()
    }
}

impl Clone for DatastreamIndividualMapping {
    fn clone(&self) -> (r: Self)
        ensures
            r@ == self@,
    {
        DatastreamIndividualMapping {
            endpoint: self.endpoint.clone(),
            mapping_type: self.mapping_type,
            reliability: self.reliability,
            retention: self.retention,
            database_retention: self.database_retention,
            explicit_timestamp: self.explicit_timestamp,
        }
    }
}

impl DatastreamIndividualMapping {
    /// Returns the [`Reliability`] of the mapping.
    pub fn reliability(&self) -> (r: Reliability)
        ensures
            r == self@.reliability,
    {
        self.reliability
    }

    /// Returns the [`Retention`] of the mapping.
    pub fn retention(&self) -> (r: Retention)
        ensures
            r == self@.retention,
    {
        self.retention
    }

    /// Returns the [`DatabaseRetention`] of the mapping.
    pub fn database_retention(&self) -> (r: DatabaseRetention)
        ensures
            r == self@.database_retention,
    {
        self.database_retention
    }

    /// Returns true if the mapping requires an explicit timestamp.
    pub fn explicit_timestamp(&self) -> (r: bool)
        ensures
            r == self@.explicit_timestamp,
    {
        self.explicit_timestamp
    }

    /// Validates a raw mapping for a datastream interface with individual
    /// aggregation.
    pub fn try_from(value: &Mapping) -> (r: Result<Self, MappingError>)
        ensures
            r is Ok <==> individual_mapping_ok(value),
            r matches Ok(m) ==> m@ == individual_mapping_view(value),
            r matches Err(e) ==> e matches MappingError::Endpoint(_) || e matches MappingError::Schema(_),
            r matches Err(MappingError::Endpoint(_)) ==> !valid_endpoint(value.endpoint@),
            r matches Err(MappingError::Schema(e)) ==> value.spec_retention() == Err::<
                Retention,
                SchemaError,
            >(e) || value.spec_database_retention() == Err::<DatabaseRetention, SchemaError>(e),
    {
        let endpoint = match Endpoint::try_from_str(self_endpoint(value)) {
            Ok(e) => e,
            Err(e) => {
                return Err(MappingError::Endpoint(e));
            },
        };
        let retention = match value.retention_with_expiry() {
            Ok(ret) => ret,
            Err(e) => {
                return Err(MappingError::Schema(e));
            },
        };
        let database_retention = match value.database_retention_with_ttl() {
            Ok(ret) => ret,
            Err(e) => {
                return Err(MappingError::Schema(e));
            },
        };
        let reliability = match value.reliability {
            Some(r) => r,
            None => Reliability::Unreliable,
        };
        let explicit_timestamp = match value.explicit_timestamp {
            Some(t) => t,
            None => false,
        };
        Ok(
            DatastreamIndividualMapping {
                endpoint,
                mapping_type: value.mapping_type,
                reliability,
                retention,
                database_retention,
                explicit_timestamp,
            },
        )
    }
}

impl InterfaceMapping for DatastreamIndividualMapping {
    open spec fn spec_endpoint(&self) -> Seq<LevelView> {
        self@.endpoint
    }

    open spec fn spec_mapping_type(&self) -> MappingType {
        self@.mapping_type
    }

    fn endpoint(&self) -> (r: &Endpoint) {
        &self.endpoint
    }

    fn mapping_type(&self) -> (r: MappingType) {
        self.mapping_type
    }
}

/// Mathematical value of a [`DatastreamObjectMapping`].
pub struct DatastreamObjectMappingView {
    pub endpoint: Seq<LevelView>,
    pub mapping_type: MappingType,
}

/// A raw mapping is acceptable for a datastream interface with object
/// aggregation: the endpoint parses and has at least two levels.
pub open spec fn object_mapping_ok(m: &Mapping) -> bool {
    &&& valid_endpoint(m.endpoint@)
    &&& endpoint_levels(m.endpoint@).len() >= 2
}

/// The mapping denoted by an acceptable raw datastream-object mapping.
pub open spec fn object_mapping_view(m: &Mapping) -> DatastreamObjectMappingView {
    DatastreamObjectMappingView {
        endpoint: endpoint_levels(m.endpoint@),
        mapping_type: m.mapping_type,
    }
}

/// Mapping of a datastream interface with object aggregation.  Reliability,
/// retention and timestamp policy are shared by the whole object and live
/// on the interface.
#[derive(Debug)]
pub struct DatastreamObjectMapping {
    pub(crate) endpoint: Endpoint,
    pub(crate) mapping_type: MappingType,
}

impl View for DatastreamObjectMapping {
    type V = DatastreamObjectMappingView;

    closed spec fn view(&self) -> DatastreamObjectMappingView {
        DatastreamObjectMappingView { endpoint: self.endpoint@, mapping_type: self.mapping_type }
    }
}

impl DeepView for DatastreamObjectMapping {
    type V = DatastreamObjectMappingView;

    open spec fn deep_view(&self) -> DatastreamObjectMappingView {
        self.view()
    }
}

impl Clone for DatastreamObjectMapping {
    fn clone(&self) -> (r: Self)
        ensures
            r@ == self@,
    {
        DatastreamObjectMapping {
            endpoint: self.endpoint.clone(),
            mapping_type: self.mapping_type,
        }
    }
}

impl DatastreamObjectMapping {
    /// Validates a raw mapping for a datastream interface with object
    /// aggregation.
    pub fn try_from(value: &Mapping) -> (r: Result<Self, MappingError>)
        ensures
            r is Ok <==> object_mapping_ok(value),
            r matches Ok(m) ==> m@ == object_mapping_view(value),
            r matches Err(e) ==> e matches MappingError::Endpoint(_) || e matches MappingError::TooShortForObject(_),
            r matches Err(MappingError::Endpoint(_)) ==> !valid_endpoint(value.endpoint@),
            r matches Err(MappingError::TooShortForObject(_)) ==> valid_endpoint(value.endpoint@)
                && endpoint_levels(value.endpoint@).len() < 2,
    {
        let endpoint = match Endpoint::try_from_str(self_endpoint(value)) {
            Ok(e) => e,
            Err(e) => {
                return Err(MappingError::Endpoint(e));
            },
        };
        if endpoint.len() < 2 {
            return Err(
                MappingError::TooShortForObject(EndpointText { text: endpoint.to_string() }),
            );
        }
        Ok(DatastreamObjectMapping { endpoint, mapping_type: value.mapping_type })
    }
}

impl InterfaceMapping for DatastreamObjectMapping {
    open spec fn spec_endpoint(&self) -> Seq<LevelView> {
        self@.endpoint
    }

    open spec fn spec_mapping_type(&self) -> MappingType {
        self@.mapping_type
    }

    fn endpoint(&self) -> (r: &Endpoint) {
        &self.endpoint
    }

    fn mapping_type(&self) -> (r: MappingType) {
        self.mapping_type
    }
}

/// Mathematical value of a [`PropertiesMapping`].
pub struct PropertiesMappingView {
    pub endpoint: Seq<LevelView>,
    pub mapping_type: MappingType,
    pub allow_unset: bool,
}

/// A raw mapping is acceptable for a properties interface: the endpoint
/// parses.  The datastream-only fields are tolerated and dropped.
pub open spec fn properties_mapping_ok(m: &Mapping) -> bool {
    valid_endpoint(m.endpoint@)
}

/// The mapping denoted by an acceptable raw properties mapping.
pub open spec fn properties_mapping_view(m: &Mapping) -> PropertiesMappingView {
    PropertiesMappingView {
        endpoint: endpoint_levels(m.endpoint@),
        mapping_type: m.mapping_type,
        allow_unset: match m.allow_unset {
            Option::Some(b) => b,
            Option::None => false,
        },
    }
}

/// Mapping of a properties interface.
#[derive(Debug)]
pub struct PropertiesMapping {
    pub(crate) endpoint: Endpoint,
    pub(crate) mapping_type: MappingType,
    pub(crate) allow_unset: bool,
}

impl View for PropertiesMapping {
    type V = PropertiesMappingView;

    closed spec fn view(&self) -> PropertiesMappingView {
        PropertiesMappingView {
            endpoint: self.endpoint@,
            mapping_type: self.mapping_type,
            allow_unset: self.allow_unset,
        }
    }
}

impl DeepView for PropertiesMapping {
    type V = PropertiesMappingView;

    open spec fn deep_view(&self) -> PropertiesMappingView {
        self.view()
    }
}

impl Clone for PropertiesMapping {
    fn clone(&self) -> (r: Self)
        ensures
            r@ == self@,
    {
        PropertiesMapping {
            endpoint: self.endpoint.clone(),
            mapping_type: self.mapping_type,
            allow_unset: self.allow_unset,
        }
    }
}

impl PropertiesMapping {
    /// Returns true if the property can be unset.
    pub fn allow_unset(&self) -> (r: bool)
        ensures
            r == self@.allow_unset,
    {
        self.allow_unset
    }

    /// Validates a raw mapping for a properties interface.
    pub fn try_from(value: &Mapping) -> (r: Result<Self, MappingError>)
        ensures
            r is Ok <==> properties_mapping_ok(value),
            r matches Ok(m) ==> m@ == properties_mapping_view(value),
            r matches Err(e) ==> e matches MappingError::Endpoint(_),
            r matches Err(MappingError::Endpoint(_)) ==> !valid_endpoint(value.endpoint@),
    {
        let endpoint = match Endpoint::try_from_str(self_endpoint(value)) {
            Ok(e) => e,
            Err(e) => {
                return Err(MappingError::Endpoint(e));
            },
        };
        let allow_unset = match value.allow_unset {
            Some(b) => b,
            None => false,
        };
        Ok(PropertiesMapping { endpoint, mapping_type: value.mapping_type, allow_unset })
    }
}

impl InterfaceMapping for PropertiesMapping {
    open spec fn spec_endpoint(&self) -> Seq<LevelView> {
        self@.endpoint
    }

    open spec fn spec_mapping_type(&self) -> MappingType {
        self@.mapping_type
    }

    fn endpoint(&self) -> (r: &Endpoint) {
        &self.endpoint
    }

    fn mapping_type(&self) -> (r: MappingType) {
        self.mapping_type
    }
}

impl DatastreamIndividualMapping {
    /// True if the two mappings are the same mapping.
    pub fn same_mapping(&self, other: &Self) -> (r: bool)
        ensures
            r == (self@ == other@),
    {
        let r = self.endpoint.same_levels(&other.endpoint) && self.mapping_type
            == other.mapping_type && self.reliability == other.reliability && self.retention
            == other.retention && self.database_retention == other.database_retention
            && self.explicit_timestamp == other.explicit_timestamp;
        r
    }
}

impl DatastreamObjectMapping {
    /// True if the two mappings are the same mapping.
    pub fn same_mapping(&self, other: &Self) -> (r: bool)
        ensures
            r == (self@ == other@),
    {
        self.endpoint.same_levels(&other.endpoint) && self.mapping_type == other.mapping_type
    }
}

impl PropertiesMapping {
    /// True if the two mappings are the same mapping.
    pub fn same_mapping(&self, other: &Self) -> (r: bool)
        ensures
            r == (self@ == other@),
    {
        self.endpoint.same_levels(&other.endpoint) && self.mapping_type == other.mapping_type
            && self.allow_unset == other.allow_unset
    }
}

/// The endpoint field of a raw mapping as a string slice.
fn self_endpoint(m: &Mapping) -> (r: &str)
    ensures
        r@ == m.endpoint@,
{
    m.endpoint.as_str()
}

/// The raw `retention` field that a resolved retention serializes to; the
/// default is elided.
pub open spec fn spec_raw_retention(r: Retention) -> Option<crate::schema::Retention> {
    match r {
        Retention::Discard => None,
        Retention::Volatile { .. } => Some(crate::schema::Retention::Volatile),
        Retention::Stored { .. } => Some(crate::schema::Retention::Stored),
    }
}

/// The raw `expiry` field that a resolved retention serializes to.
pub open spec fn spec_raw_expiry(r: Retention) -> Option<i64> {
    match r {
        Retention::Discard => None,
        Retention::Volatile { expiry } | Retention::Stored { expiry } => match expiry {
            Option::Some(e) => Some(e as i64),
            Option::None => None,
        },
    }
}

/// The raw `database_retention_policy` field that a resolved database
/// retention serializes to; the default is elided.
pub open spec fn spec_raw_policy(d: DatabaseRetention) -> Option<
    crate::schema::DatabaseRetentionPolicy,
> {
    match d {
        DatabaseRetention::NoTtl => None,
        DatabaseRetention::UseTtl { .. } => Some(crate::schema::DatabaseRetentionPolicy::UseTtl),
    }
}

/// The raw `database_retention_ttl` field that a resolved database
/// retention serializes to.
pub open spec fn spec_raw_ttl(d: DatabaseRetention) -> Option<i64> {
    match d {
        DatabaseRetention::NoTtl => None,
        DatabaseRetention::UseTtl { ttl } => Some(ttl as i64),
    }
}

impl Mapping {
    /// Serializes a datastream-individual mapping back to its raw form,
    /// eliding the default values.
    pub fn from_individual(value: &DatastreamIndividualMapping) -> (r: Mapping)
        requires
            crate::endpoint::wf_levels(value@.endpoint),
            crate::interface::retention_wf(value@.retention),
            crate::interface::database_retention_wf(value@.database_retention),
        ensures
            r.endpoint@ == crate::endpoint::levels_chars(value@.endpoint),
            r.reliability == (if value@.reliability is Unreliable {
                Option::<Reliability>::None
            } else {
                Some(value@.reliability)
            }),
            r.explicit_timestamp == (if value@.explicit_timestamp {
                Some(true)
            } else {
                Option::<bool>::None
            }),
            r.retention == spec_raw_retention(value@.retention),
            r.expiry == spec_raw_expiry(value@.retention),
            r.database_retention_policy == spec_raw_policy(value@.database_retention),
            r.database_retention_ttl == spec_raw_ttl(value@.database_retention),
            r.allow_unset is None,
            r.description is None,
            r.doc is None,
            individual_mapping_ok(&r),
            individual_mapping_view(&r) == value@,
    {
        proof {
            crate::endpoint::lemma_render_parse_round_trip(value@.endpoint);
        }
        let reliability = if value.reliability().is_unreliable() {
            None
        } else {
            Some(value.reliability())
        };
        let explicit_timestamp = if value.explicit_timestamp() {
            Some(true)
        } else {
            None
        };
        let (retention, expiry): (Option<crate::schema::Retention>, Option<i64>) =
            match value.retention() {
            Retention::Discard => (None, None),
            Retention::Volatile { expiry } => (
                Some(crate::schema::Retention::Volatile),
                match expiry {
                    Some(e) => Some(e as i64),
                    None => None,
                },
            ),
            Retention::Stored { expiry } => (
                Some(crate::schema::Retention::Stored),
                match expiry {
                    Some(e) => Some(e as i64),
                    None => None,
                },
            ),
        };
        let (database_retention_policy, database_retention_ttl): (
            Option<crate::schema::DatabaseRetentionPolicy>,
            Option<i64>,
        ) = match value.database_retention() {
            DatabaseRetention::NoTtl => (None, None),
            DatabaseRetention::UseTtl { ttl } => (
                Some(crate::schema::DatabaseRetentionPolicy::UseTtl),
                Some(ttl as i64),
            ),
        };
        let r = Mapping {
            endpoint: value.endpoint().to_string(),
            mapping_type: value.mapping_type(),
            reliability,
            explicit_timestamp,
            retention,
            expiry,
            database_retention_policy,
            database_retention_ttl,
            allow_unset: None,
            description: None,
            doc: None,
        };
        r
    }

    /// Serializes a datastream-object mapping back to its raw form with
    /// the shared attributes of its interface, eliding the default values.
    pub fn from_object(
        value: &DatastreamObjectMapping,
        reliability: Reliability,
        retention: Retention,
        database_retention: DatabaseRetention,
        explicit_timestamp: bool,
    ) -> (r: Mapping)
        requires
            crate::endpoint::wf_levels(value@.endpoint),
            value@.endpoint.len() >= 2,
            crate::interface::retention_wf(retention),
            crate::interface::database_retention_wf(database_retention),
        ensures
            r.endpoint@ == crate::endpoint::levels_chars(value@.endpoint),
            r.reliability == (if reliability is Unreliable {
                Option::<Reliability>::None
            } else {
                Some(reliability)
            }),
            r.explicit_timestamp == (if explicit_timestamp {
                Some(true)
            } else {
                Option::<bool>::None
            }),
            r.retention == spec_raw_retention(retention),
            r.expiry == spec_raw_expiry(retention),
            r.database_retention_policy == spec_raw_policy(database_retention),
            r.database_retention_ttl == spec_raw_ttl(database_retention),
            r.allow_unset is None,
            r.description is None,
            r.doc is None,
            object_mapping_ok(&r),
            object_mapping_view(&r) == value@,
            individual_mapping_ok(&r),
            individual_mapping_view(&r).reliability == reliability,
            individual_mapping_view(&r).retention == retention,
            individual_mapping_view(&r).database_retention == database_retention,
            individual_mapping_view(&r).explicit_timestamp == explicit_timestamp,
    {
        proof {
            crate::endpoint::lemma_render_parse_round_trip(value@.endpoint);
        }
        let rel = if matches!(reliability, Reliability::Unreliable) {
            None
        } else {
            Some(reliability)
        };
        let ts = if explicit_timestamp {
            Some(true)
        } else {
            None
        };
        let (ret, expiry): (Option<crate::schema::Retention>, Option<i64>) = match retention {
            Retention::Discard => (None, None),
            Retention::Volatile { expiry } => (
                Some(crate::schema::Retention::Volatile),
                match expiry {
                    Some(e) => Some(e as i64),
                    None => None,
                },
            ),
            Retention::Stored { expiry } => (
                Some(crate::schema::Retention::Stored),
                match expiry {
                    Some(e) => Some(e as i64),
                    None => None,
                },
            ),
        };
        let (policy, ttl): (Option<crate::schema::DatabaseRetentionPolicy>, Option<i64>) =
            match database_retention {
            DatabaseRetention::NoTtl => (None, None),
            DatabaseRetention::UseTtl { ttl } => (
                Some(crate::schema::DatabaseRetentionPolicy::UseTtl),
                Some(ttl as i64),
            ),
        };
        Mapping {
            endpoint: value.endpoint().to_string(),
            mapping_type: value.mapping_type(),
            reliability: rel,
            explicit_timestamp: ts,
            retention: ret,
            expiry,
            database_retention_policy: policy,
            database_retention_ttl: ttl,
            allow_unset: None,
            description: None,
            doc: None,
        }
    }

    /// Serializes a properties mapping back to its raw form, eliding the
    /// default values.
    pub fn from_properties(value: &PropertiesMapping) -> (r: Mapping)
        requires
            crate::endpoint::wf_levels(value@.endpoint),
        ensures
            r.endpoint@ == crate::endpoint::levels_chars(value@.endpoint),
            r.reliability is None,
            r.explicit_timestamp is None,
            r.retention is None,
            r.expiry is None,
            r.database_retention_policy is None,
            r.database_retention_ttl is None,
            r.allow_unset == (if value@.allow_unset {
                Some(true)
            } else {
                Option::<bool>::None
            }),
            r.description is None,
            r.doc is None,
            properties_mapping_ok(&r),
            properties_mapping_view(&r) == value@,
    {
        proof {
            crate::endpoint::lemma_render_parse_round_trip(value@.endpoint);
        }
        let allow_unset = if value.allow_unset() {
            Some(true)
        } else {
            None
        };
        Mapping {
            endpoint: value.endpoint().to_string(),
            mapping_type: value.mapping_type(),
            reliability: None,
            explicit_timestamp: None,
            retention: None,
            expiry: None,
            database_retention_policy: None,
            database_retention_ttl: None,
            allow_unset,
            description: None,
            doc: None,
        }
    }
}

} // verus!
