//! Validated in-memory form of an interface.
//!
//! The raw JSON shape of the [`schema`](crate::schema) module is checked
//! against the schema invariants and turned into an [`Interface`] whose
//! mappings carry resolved retention policies and parsed endpoints.

use vstd::prelude::*;

use crate::endpoint::LevelView;
use crate::endpoint::levels_overlap;
use crate::endpoint::wf_levels;
use crate::mapping::DatastreamIndividualMapping;
use crate::mapping::DatastreamIndividualMappingView;
use crate::mapping::DatastreamObjectMapping;
use crate::mapping::DatastreamObjectMappingView;
use crate::mapping::InterfaceMapping;
use crate::mapping::MappingError;
use crate::mapping::PropertiesMapping;
use crate::mapping::PropertiesMappingView;
use crate::mapping::individual_mapping_ok;
use crate::mapping::individual_mapping_view;
use crate::mapping::object_mapping_ok;
use crate::mapping::object_mapping_view;
use crate::mapping::properties_mapping_ok;
use crate::mapping::properties_mapping_view;
use crate::schema::Aggregation;
use crate::schema::InterfaceJson;
use crate::schema::InterfaceType;
use crate::schema::Mapping;
use crate::schema::Ownership;
use crate::schema::Reliability;

verus! {

/// An interface can have at most this many mappings.
pub const MAX_INTERFACE_MAPPINGS: usize = 1024;

/// Resolved retention of a data stream: what happens to data that cannot
/// be delivered, with the expiry in seconds (`None` means never).
#[derive(Debug, Clone, Copy, PartialEq, Eq, Structural)]
pub enum Retention {
    /// Undeliverable data is discarded.
    Discard,
    /// Undeliverable data is kept in memory until the expiry.
    Volatile {
        /// Seconds before the data is dropped; `None` means never.
        expiry: Option<u64>,
    },
    /// Undeliverable data is kept on disk until the expiry.
    Stored {
        /// Seconds before the data is dropped; `None` means never.
        expiry: Option<u64>,
    },
}

/// Resolved database retention of a data stream.
#[derive(Debug, Clone, Copy, PartialEq, Eq, Structural)]
pub enum DatabaseRetention {
    /// The data never expires from the database.
    NoTtl,
    /// The data is kept in the database for `ttl` seconds.
    UseTtl {
        /// Seconds the data is kept; at least 60.
        ttl: u64,
    },
}

/// A well-formed resolved retention: the expiry came from a positive
/// number of seconds that fits a signed 64-bit integer.
pub open spec fn retention_wf(r: Retention) -> bool {
    match r {
        Retention::Discard => true,
        Retention::Volatile { expiry } | Retention::Stored { expiry } => match expiry {
            Option::Some(e) => 1 <= e <= i64::MAX,
            Option::None => true,
        },
    }
}

/// A well-formed resolved database retention: the ttl is at least 60
/// seconds and fits a signed 64-bit integer.
pub open spec fn database_retention_wf(d: DatabaseRetention) -> bool {
    match d {
        DatabaseRetention::NoTtl => true,
        DatabaseRetention::UseTtl { ttl } => 60 <= ttl <= i64::MAX,
    }
}

/// Error when validating an [`InterfaceJson`].
#[derive(Debug)]
pub enum InterfaceError {
    /// The sum of the major and minor version must be at least 1.
    MajorMinor,
    /// A mapping is invalid.
    Mapping(MappingError),
    /// The mappings of an object interface must share reliability,
    /// retention and timestamp settings.
    ObjectAttributes,
    /// The mappings of an object interface must share their first level.
    ObjectPrefix,
    /// A properties interface cannot have object aggregation.
    PropertiesWithObject,
}

impl Clone for InterfaceError {
    fn clone(&self) -> (r: Self)
        ensures
            r == self,
    {
        match self {
            InterfaceError::MajorMinor => InterfaceError::MajorMinor,
            InterfaceError::Mapping(e) => InterfaceError::Mapping(e.clone()),
            InterfaceError::ObjectAttributes => InterfaceError::ObjectAttributes,
            InterfaceError::ObjectPrefix => InterfaceError::ObjectPrefix,
            InterfaceError::PropertiesWithObject => InterfaceError::PropertiesWithObject,
        }
    }
}

/// Mathematical value of the mappings of an [`Interface`], by interface
/// type and aggregation.
pub enum InterfaceDataView {
    DatastreamIndividual { mappings: Seq<DatastreamIndividualMappingView> },
    DatastreamObject {
        reliability: Reliability,
        retention: Retention,
        database_retention: DatabaseRetention,
        explicit_timestamp: bool,
        mappings: Seq<DatastreamObjectMappingView>,
    },
    Properties { mappings: Seq<PropertiesMappingView> },
}

/// Mathematical value of an [`Interface`].
pub struct InterfaceView {
    pub name: Seq<char>,
    pub version_major: int,
    pub version_minor: int,
    pub ownership: Ownership,
    pub data: InterfaceDataView,
}

impl InterfaceView {
    /// The endpoints of the mappings, in declaration order.
    pub open spec fn endpoints(&self) -> Seq<Seq<LevelView>> {
        match self.data {
            InterfaceDataView::DatastreamIndividual { mappings } => Seq::new(
                mappings.len(),
                |k: int| mappings[k].endpoint,
            ),
            InterfaceDataView::DatastreamObject { mappings, .. } => Seq::new(
                mappings.len(),
                |k: int| mappings[k].endpoint,
            ),
            InterfaceDataView::Properties { mappings } => Seq::new(
                mappings.len(),
                |k: int| mappings[k].endpoint,
            ),
        }
    }

    /// The type of the interface.
    pub open spec fn interface_type(&self) -> InterfaceType {
        match self.data {
            InterfaceDataView::Properties { .. } => InterfaceType::Properties,
            _ => InterfaceType::Datastream,
        }
    }

    /// The aggregation of the interface.
    pub open spec fn aggregation(&self) -> Aggregation {
        match self.data {
            InterfaceDataView::DatastreamObject { .. } => Aggregation::Object,
            _ => Aggregation::Individual,
        }
    }

    /// The invariants of a validated interface: versions in range, a
    /// bounded non-empty set of well-formed, pairwise non-overlapping
    /// endpoints, resolved retention fields in range, and for object
    /// aggregation at least two levels per endpoint and a shared first
    /// level.
    pub open spec fn wf(&self) -> bool {
        &&& 0 <= self.version_major <= i32::MAX
        &&& 0 <= self.version_minor <= i32::MAX
        &&& self.version_major + self.version_minor >= 1
        &&& 1 <= self.endpoints().len() <= MAX_INTERFACE_MAPPINGS
        &&& forall|k: int|
            0 <= k < self.endpoints().len() ==> wf_levels(#[trigger] self.endpoints()[k])
        &&& forall|k: int, l: int|
            0 <= k < l < self.endpoints().len() ==> !levels_overlap(
                #[trigger] self.endpoints()[k],
                #[trigger] self.endpoints()[l],
            )
        &&& match self.data {
            InterfaceDataView::DatastreamIndividual { mappings } => forall|k: int|
                0 <= k < mappings.len() ==> retention_wf(#[trigger] mappings[k].retention)
                    && database_retention_wf(mappings[k].database_retention),
            InterfaceDataView::DatastreamObject {
                retention,
                database_retention,
                mappings,
                ..
            } => {
                &&& retention_wf(retention)
                &&& database_retention_wf(database_retention)
                &&& forall|k: int| 0 <= k < mappings.len() ==> (#[trigger] mappings[k].endpoint).len() >= 2
                &&& forall|k: int|
                    0 <= k < mappings.len() ==> (#[trigger] mappings[k].endpoint)[0]
                        == mappings[0].endpoint[0]
            },
            InterfaceDataView::Properties { .. } => true,
        }
    }
}

/// The mappings of an [`Interface`], by interface type and aggregation.
#[derive(Debug)]
pub enum InterfaceData {
    /// Datastream with individual aggregation: each mapping has its own
    /// delivery settings.
    DatastreamIndividual { mappings: Vec<DatastreamIndividualMapping> },
    /// Datastream with object aggregation: the delivery settings are
    /// shared by the whole object.
    DatastreamObject {
        reliability: Reliability,
        retention: Retention,
        database_retention: DatabaseRetention,
        explicit_timestamp: bool,
        mappings: Vec<DatastreamObjectMapping>,
    },
    /// Properties: retained stateful values.
    Properties { mappings: Vec<PropertiesMapping> },
}

/// Mathematical value of the mapping data of an interface.
pub open spec fn data_view(d: &InterfaceData) -> InterfaceDataView {
    match d {
        InterfaceData::DatastreamIndividual { mappings } => {
            InterfaceDataView::DatastreamIndividual { mappings: mappings.deep_view() }
        },
        InterfaceData::DatastreamObject {
            reliability,
            retention,
            database_retention,
            explicit_timestamp,
            mappings,
        } => InterfaceDataView::DatastreamObject {
            reliability: *reliability,
            retention: *retention,
            database_retention: *database_retention,
            explicit_timestamp: *explicit_timestamp,
            mappings: mappings.deep_view(),
        },
        InterfaceData::Properties { mappings } => {
            InterfaceDataView::Properties { mappings: mappings.deep_view() }
        },
    }
}

/// A validated interface.
#[derive(Debug)]
pub struct Interface {
    pub(crate) name: String,
    pub(crate) version_major: i32,
    pub(crate) version_minor: i32,
    pub(crate) ownership: Ownership,
    pub(crate) data: InterfaceData,
}

impl DeepView for Interface {
    type V = InterfaceView;

    open spec fn deep_view(&self) -> InterfaceView {
        self.view()
    }
}

impl View for Interface {
    type V = InterfaceView;

    closed spec fn view(&self) -> InterfaceView {
        InterfaceView {
            name: self.name@,
            version_major: self.version_major as int,
            version_minor: self.version_minor as int,
            ownership: self.ownership,
            data: data_view(&self.data),
        }
    }
}

/// The aggregation field of an interface definition, with its default.
pub open spec fn spec_aggregation(json: &InterfaceJson) -> Aggregation {
    match json.aggregation {
        Option::Some(a) => a,
        Option::None => Aggregation::Individual,
    }
}

/// Two raw mappings agree on the fields that an object interface shares:
/// reliability, timestamp policy, retention and database retention.
pub open spec fn object_attributes_eq(a: &Mapping, b: &Mapping) -> bool {
    &&& a.reliability == b.reliability
    &&& a.explicit_timestamp == b.explicit_timestamp
    &&& a.retention == b.retention
    &&& a.expiry == b.expiry
    &&& a.database_retention_policy == b.database_retention_policy
    &&& a.database_retention_ttl == b.database_retention_ttl
}

/// The mappings of the definition are acceptable for its type and
/// aggregation.
pub open spec fn mappings_ok(json: &InterfaceJson) -> bool {
    match (json.interface_type, spec_aggregation(json)) {
        (InterfaceType::Datastream, Aggregation::Individual) => forall|k: int|
            0 <= k < json.mappings.len() ==> individual_mapping_ok(&json.mappings[k]),
        (InterfaceType::Datastream, Aggregation::Object) => {
            &&& forall|k: int| 0 <= k < json.mappings.len() ==> object_mapping_ok(&json.mappings[k])
            &&& forall|k: int|
                0 <= k < json.mappings.len() ==> object_attributes_eq(
                    &json.mappings[k],
                    &json.mappings[0],
                )
            &&& json.mappings.len() > 0 ==> individual_mapping_ok(&json.mappings[0])
            &&& forall|k: int|
                0 <= k < json.mappings.len() ==> (#[trigger] object_mapping_view(
                    &json.mappings[k],
                )).endpoint[0] == object_mapping_view(&json.mappings[0]).endpoint[0]
        },
        (InterfaceType::Properties, Aggregation::Individual) => forall|k: int|
            0 <= k < json.mappings.len() ==> properties_mapping_ok(&json.mappings[k]),
        (InterfaceType::Properties, Aggregation::Object) => false,
    }
}

/// The version fields of the definition are acceptable: non-negative,
/// with a sum of at least 1.
pub open spec fn versions_ok(json: &InterfaceJson) -> bool {
    &&& json.version_major >= 0
    &&& json.version_minor >= 0
    &&& json.version_major + json.version_minor >= 1
}

/// The mappings at positions `l` and `k` of the definition overlap.
pub open spec fn overlaps_at(json: &InterfaceJson, l: int, k: int) -> bool {
    levels_overlap(
        crate::endpoint::endpoint_levels(json.mappings[l].endpoint@),
        crate::endpoint::endpoint_levels(json.mappings[k].endpoint@),
    )
}

/// No two mappings of the definition overlap.
pub open spec fn no_overlaps(json: &InterfaceJson) -> bool {
    forall|k: int, l: int|
        0 <= k < l < json.mappings.len() ==> !levels_overlap(
            crate::endpoint::endpoint_levels(#[trigger] json.mappings[k].endpoint@),
            crate::endpoint::endpoint_levels(#[trigger] json.mappings[l].endpoint@),
        )
}

/// An acceptable interface definition: versions non-negative with sum at
/// least 1, a bounded non-empty list of acceptable mappings, and no two
/// mappings overlapping.
pub open spec fn valid_interface_json(json: &InterfaceJson) -> bool {
    &&& json.version_major >= 0
    &&& json.version_minor >= 0
    &&& json.version_major + json.version_minor >= 1
    &&& 1 <= json.mappings.len() <= MAX_INTERFACE_MAPPINGS
    &&& mappings_ok(json)
    &&& no_overlaps(json)
}

/// The interface denoted by an acceptable definition.
pub open spec fn parsed_interface(json: &InterfaceJson) -> InterfaceView {
    InterfaceView {
        name: json.interface_name@,
        version_major: json.version_major as int,
        version_minor: json.version_minor as int,
        ownership: json.ownership,
        data: match (json.interface_type, spec_aggregation(json)) {
            (InterfaceType::Datastream, Aggregation::Individual) => {
                InterfaceDataView::DatastreamIndividual {
                    mappings: Seq::new(
                        json.mappings.len() as nat,
                        |k: int| individual_mapping_view(&json.mappings[k]),
                    ),
                }
            },
            (InterfaceType::Datastream, Aggregation::Object) => {
                let head = individual_mapping_view(&json.mappings[0]);
                InterfaceDataView::DatastreamObject {
                    reliability: head.reliability,
                    retention: head.retention,
                    database_retention: head.database_retention,
                    explicit_timestamp: head.explicit_timestamp,
                    mappings: Seq::new(
                        json.mappings.len() as nat,
                        |k: int| object_mapping_view(&json.mappings[k]),
                    ),
                }
            },
            (InterfaceType::Properties, _) => InterfaceDataView::Properties {
                mappings: Seq::new(
                    json.mappings.len() as nat,
                    |k: int| properties_mapping_view(&json.mappings[k]),
                ),
            },
        },
    }
}

/// Resolving the retention fields of a mapping gives values in range.
proof fn lemma_resolved_retention_wf(m: &Mapping)
    ensures
        m.spec_retention() is Ok ==> retention_wf(m.spec_retention()->Ok_0),
        m.spec_database_retention() is Ok ==> database_retention_wf(
            m.spec_database_retention()->Ok_0,
        ),
{
}

/// The interface denoted by an acceptable definition satisfies the
/// interface invariants.
pub proof fn lemma_parsed_interface_wf(json: &InterfaceJson)
    requires
        valid_interface_json(json),
    ensures
        parsed_interface(json).wf(),
{
    let v = parsed_interface(json);
    assert forall|k: int| 0 <= k < v.endpoints().len() implies wf_levels(
        #[trigger] v.endpoints()[k],
    ) by {
        assert(v.endpoints()[k] == crate::endpoint::endpoint_levels(json.mappings[k].endpoint@));
        crate::endpoint::lemma_parse_from_wf(json.mappings[k].endpoint@, 1);
    }
    assert forall|k: int, l: int| 0 <= k < l < v.endpoints().len() implies !levels_overlap(
        #[trigger] v.endpoints()[k],
        #[trigger] v.endpoints()[l],
    ) by {
        assert(v.endpoints()[k] == crate::endpoint::endpoint_levels(json.mappings[k].endpoint@));
        assert(v.endpoints()[l] == crate::endpoint::endpoint_levels(json.mappings[l].endpoint@));
    }
    match v.data {
        InterfaceDataView::DatastreamIndividual { mappings } => {
            assert forall|k: int| 0 <= k < mappings.len() implies retention_wf(
                #[trigger] mappings[k].retention,
            ) && database_retention_wf(mappings[k].database_retention) by {
                lemma_resolved_retention_wf(&json.mappings[k]);
            }
        },
        InterfaceDataView::DatastreamObject { retention, database_retention, mappings, .. } => {
            lemma_resolved_retention_wf(&json.mappings[0]);
            assert forall|k: int| 0 <= k < mappings.len() implies (
            #[trigger] mappings[k].endpoint).len() >= 2 && mappings[k].endpoint[0]
                == mappings[0].endpoint[0] by {
                assert(object_mapping_view(&json.mappings[k]).endpoint[0] == object_mapping_view(
                    &json.mappings[0],
                ).endpoint[0]);
            }
        },
        InterfaceDataView::Properties { .. } => {},
    }
}

/// A minor-compatible extension: same major version, a minor version at
/// least as high, the same kind and shared settings, and every mapping of
/// `old` present unchanged in `new`.
pub open spec fn interface_extends(new: InterfaceView, old: InterfaceView) -> bool {
    &&& new.version_major == old.version_major
    &&& new.version_minor >= old.version_minor
    &&& match (new.data, old.data) {
        (
            InterfaceDataView::DatastreamIndividual { mappings: new_m },
            InterfaceDataView::DatastreamIndividual { mappings: old_m },
        ) => forall|k: int| 0 <= k < old_m.len() ==> new_m.contains(#[trigger] old_m[k]),
        (
            InterfaceDataView::DatastreamObject {
                reliability: new_rel,
                retention: new_ret,
                database_retention: new_db,
                explicit_timestamp: new_ts,
                mappings: new_m,
            },
            InterfaceDataView::DatastreamObject {
                reliability: old_rel,
                retention: old_ret,
                database_retention: old_db,
                explicit_timestamp: old_ts,
                mappings: old_m,
            },
        ) => {
            &&& new_rel == old_rel
            &&& new_ret == old_ret
            &&& new_db == old_db
            &&& new_ts == old_ts
            &&& forall|k: int| 0 <= k < old_m.len() ==> new_m.contains(#[trigger] old_m[k])
        },
        (
            InterfaceDataView::Properties { mappings: new_m },
            InterfaceDataView::Properties { mappings: old_m },
        ) => forall|k: int| 0 <= k < old_m.len() ==> new_m.contains(#[trigger] old_m[k]),
        _ => false,
    }
}

/// The raw fields that a serialized object mapping carries for the shared
/// attributes of its interface.
pub open spec fn object_raw_attrs(
    m: &Mapping,
    reliability: Reliability,
    retention: Retention,
    database_retention: DatabaseRetention,
    explicit_timestamp: bool,
) -> bool {
    &&& m.reliability == (if reliability is Unreliable {
        Option::<Reliability>::None
    } else {
        Some(reliability)
    })
    &&& m.explicit_timestamp == (if explicit_timestamp {
        Some(true)
    } else {
        Option::<bool>::None
    })
    &&& m.retention == crate::mapping::spec_raw_retention(retention)
    &&& m.expiry == crate::mapping::spec_raw_expiry(retention)
    &&& m.database_retention_policy == crate::mapping::spec_raw_policy(database_retention)
    &&& m.database_retention_ttl == crate::mapping::spec_raw_ttl(database_retention)
}

/// Compares the fields that an object interface shares between two raw
/// mappings.
fn object_attributes_match(a: &Mapping, b: &Mapping) -> (r: bool)
    ensures
        r == object_attributes_eq(a, b),
{
    let reliability = match (a.reliability, b.reliability) {
        (Some(x), Some(y)) => x == y,
        (None, None) => true,
        _ => false,
    };
    let explicit_timestamp = match (a.explicit_timestamp, b.explicit_timestamp) {
        (Some(x), Some(y)) => x == y,
        (None, None) => true,
        _ => false,
    };
    let retention = match (a.retention, b.retention) {
        (Some(x), Some(y)) => x == y,
        (None, None) => true,
        _ => false,
    };
    let expiry = match (a.expiry, b.expiry) {
        (Some(x), Some(y)) => x == y,
        (None, None) => true,
        _ => false,
    };
    let policy = match (a.database_retention_policy, b.database_retention_policy) {
        (Some(x), Some(y)) => x == y,
        (None, None) => true,
        _ => false,
    };
    let ttl = match (a.database_retention_ttl, b.database_retention_ttl) {
        (Some(x), Some(y)) => x == y,
        (None, None) => true,
        _ => false,
    };
    reliability && explicit_timestamp && retention && expiry && policy && ttl
}

/// Looks for a pair of overlapping endpoints among the mappings parsed
/// from the raw endpoint strings `raw`; returns the index of the second
/// member of the first such pair.
#[verifier::loop_isolation(false)]
fn check_overlaps<M: InterfaceMapping>(mappings: &Vec<M>, Ghost(raw): Ghost<Seq<Seq<char>>>) -> (r:
    Option<usize>)
    requires
        raw.len() == mappings.len(),
        forall|k: int|
            0 <= k < mappings.len() ==> mappings@[k].spec_endpoint()
                == crate::endpoint::endpoint_levels(#[trigger] raw[k]),
    ensures
        match r {
            Option::None => forall|k: int, l: int|
                0 <= k < l < raw.len() ==> !levels_overlap(
                    crate::endpoint::endpoint_levels(#[trigger] raw[k]),
                    crate::endpoint::endpoint_levels(#[trigger] raw[l]),
                ),
            Option::Some(k) => {
                &&& 0 < k < raw.len()
                &&& exists|l: int|
                    0 <= l < k && levels_overlap(
                        crate::endpoint::endpoint_levels(#[trigger] raw[l]),
                        crate::endpoint::endpoint_levels(raw[k as int]),
                    )
                &&& forall|x: int, y: int|
                    0 <= x < y < k ==> !levels_overlap(
                        crate::endpoint::endpoint_levels(#[trigger] raw[x]),
                        crate::endpoint::endpoint_levels(#[trigger] raw[y]),
                    )
            },
        },
{
    match find_overlap(mappings) {
        Option::Some(k) => {
            proof {
                let l = choose|l: int|
                    0 <= l < k && levels_overlap(
                        #[trigger] mappings@[l].spec_endpoint(),
                        mappings@[k as int].spec_endpoint(),
                    );
                assert(levels_overlap(
                    crate::endpoint::endpoint_levels(raw[l]),
                    crate::endpoint::endpoint_levels(raw[k as int]),
                ));
                assert forall|x: int, y: int| 0 <= x < y < k implies !levels_overlap(
                    crate::endpoint::endpoint_levels(#[trigger] raw[x]),
                    crate::endpoint::endpoint_levels(#[trigger] raw[y]),
                ) by {
                    assert(!levels_overlap(
                        mappings@[x].spec_endpoint(),
                        mappings@[y].spec_endpoint(),
                    ));
                }
            }
            Some(k)
        },
        Option::None => {
            assert forall|k: int, l: int| 0 <= k < l < raw.len() implies !levels_overlap(
                crate::endpoint::endpoint_levels(#[trigger] raw[k]),
                crate::endpoint::endpoint_levels(#[trigger] raw[l]),
            ) by {
                assert(!levels_overlap(
                    mappings@[k].spec_endpoint(),
                    mappings@[l].spec_endpoint(),
                ));
            }
            None
        },
    }
}

/// Looks for a pair of overlapping endpoints; returns the index of the
/// second member of the first such pair.
#[verifier::loop_isolation(false)]
fn find_overlap<M: InterfaceMapping>(mappings: &Vec<M>) -> (r: Option<usize>)
    ensures
        match r {
            Option::None => forall|k: int, l: int|
                0 <= k < l < mappings.len() ==> !levels_overlap(
                    #[trigger] mappings@[k].spec_endpoint(),
                    #[trigger] mappings@[l].spec_endpoint(),
                ),
            Option::Some(k) => {
                &&& 0 < k < mappings.len()
                &&& exists|l: int|
                    0 <= l < k && levels_overlap(
                        #[trigger] mappings@[l].spec_endpoint(),
                        mappings@[k as int].spec_endpoint(),
                    )
                &&& forall|x: int, y: int|
                    0 <= x < y < k ==> !levels_overlap(
                        #[trigger] mappings@[x].spec_endpoint(),
                        #[trigger] mappings@[y].spec_endpoint(),
                    )
            },
        },
{
    let n = mappings.len();
    let mut k: usize = 1;
    while k < n
        invariant
            1 <= k,
            k <= n || n == 0,
            forall|x: int, y: int|
                0 <= x < y < k && y < n ==> !levels_overlap(
                    #[trigger] mappings@[x].spec_endpoint(),
                    #[trigger] mappings@[y].spec_endpoint(),
                ),
        decreases n - k,
    {
        let mut l: usize = 0;
        while l < k
            invariant
                l <= k < n,
                forall|x: int|
                    0 <= x < l ==> !levels_overlap(
                        #[trigger] mappings@[x].spec_endpoint(),
                        mappings@[k as int].spec_endpoint(),
                    ),
            decreases k - l,
        {
            if mappings[l].endpoint().overlaps(mappings[k].endpoint()) {
                return Some(k);
            }
            l += 1;
        }
        k += 1;
    }
    None
}

impl Interface {
    /// The name of the interface.
    pub fn interface_name(&self) -> (r: &str)
        ensures
            r@ == self@.name,
    {
        self.name.as_str()
    }

    /// The major version of the interface.
    pub fn version_major(&self) -> (r: i32)
        ensures
            r as int == self@.version_major,
    {
        self.version_major
    }

    /// The minor version of the interface.
    pub fn version_minor(&self) -> (r: i32)
        ensures
            r as int == self@.version_minor,
    {
        self.version_minor
    }

    /// The ownership of the interface.
    pub fn ownership(&self) -> (r: Ownership)
        ensures
            r == self@.ownership,
    {
        self.ownership
    }

    /// The type of the interface.
    pub fn interface_type(&self) -> (r: InterfaceType)
        ensures
            r == self@.interface_type(),
    {
        match &self.data {
            InterfaceData::Properties { .. } => InterfaceType::Properties,
            _ => InterfaceType::Datastream,
        }
    }

    /// The aggregation of the interface.
    pub fn aggregation(&self) -> (r: Aggregation)
        ensures
            r == self@.aggregation(),
    {
        match &self.data {
            InterfaceData::DatastreamObject { .. } => Aggregation::Object,
            _ => Aggregation::Individual,
        }
    }

    /// Serializes the interface back to its raw definition.  The result is
    /// an acceptable definition that denotes this interface again, with
    /// every default value elided, so parsing and re-serializing preserve
    /// the semantics of a definition.
    #[verifier::loop_isolation(false)]
    #[verifier::rlimit(100)]
    pub fn to_interface_json(&self) -> (r: InterfaceJson)
        requires
            self@.wf(),
        ensures
            valid_interface_json(&r),
            parsed_interface(&r) == self@,
            r.interface_name@ == self@.name,
            r.version_major as int == self@.version_major,
            r.version_minor as int == self@.version_minor,
            r.ownership == self@.ownership,
            r.interface_type == self@.interface_type(),
            r.aggregation == (if self@.aggregation() is Object {
                Some(Aggregation::Object)
            } else {
                Option::<Aggregation>::None
            }),
            r.description is None,
            r.doc is None,
    {
        match &self.data {
            InterfaceData::DatastreamIndividual { mappings } => {
                let n = mappings.len();
                assert(n == self@.endpoints().len());
                let mut out: Vec<Mapping> = Vec::new();
                let mut k: usize = 0;
                while k < n
                    invariant
                        k <= n,
                        out.len() == k,
                        forall|l: int|
                            0 <= l < k ==> individual_mapping_ok(&(#[trigger] out@[l]))
                                && individual_mapping_view(&out@[l]) == mappings.deep_view()[l],
                        forall|l: int|
                            0 <= l < k ==> (#[trigger] out@[l]).allow_unset is None
                                && out@[l].description is None && out@[l].doc is None,
                    decreases n - k,
                {
                    proof {
                        assert(self@.endpoints()[k as int] == mappings.deep_view()[
                            k as int
                        ].endpoint);
                    }
                    let m = Mapping::from_individual(&mappings[k]);
                    out.push(m);
                    k += 1;
                }
                let ghost outv = out@;
                assert forall|x: int| 0 <= x < n implies individual_mapping_ok(
                    &(#[trigger] outv[x]),
                ) && individual_mapping_view(&outv[x]) == mappings.deep_view()[x] by {
                    assert(k == n);
                    assert(0 <= x < k);
                    assert(outv[x] == out@[x]);
                    assert(individual_mapping_ok(&out@[x]) && individual_mapping_view(&out@[x])
                        == mappings.deep_view()[x]);
                }
                let r = InterfaceJson {
                    interface_name: self.name.clone(),
                    version_major: self.version_major,
                    version_minor: self.version_minor,
                    interface_type: InterfaceType::Datastream,
                    ownership: self.ownership,
                    aggregation: None,
                    description: None,
                    doc: None,
                    mappings: out,
                };
                proof {
                    assert(r.mappings@ == outv);
                    assert(r.mappings.len() == n);
                    assert forall|x: int| 0 <= x < r.mappings.len() implies individual_mapping_ok(
                        &r.mappings[x],
                    ) by {
                        assert(r.mappings@ == outv);
                        assert(0 <= x < n);
                        assert(r.mappings@[x] == outv[x]);
                        assert(individual_mapping_ok(&outv[x]) && individual_mapping_view(&outv[x])
                            == mappings.deep_view()[x]);
                    }
                    assert(mappings_ok(&r));
                    assert forall|x: int, y: int| 0 <= x < y < n implies !levels_overlap(
                        crate::endpoint::endpoint_levels(#[trigger] r.mappings@[x].endpoint@),
                        crate::endpoint::endpoint_levels(#[trigger] r.mappings@[y].endpoint@),
                    ) by {
                        assert(r.mappings@ == outv);
                        assert(0 <= x < n && 0 <= y < n);
                        assert(r.mappings@[x] == outv[x] && r.mappings@[y] == outv[y]);
                        assert(individual_mapping_ok(&outv[x]) && individual_mapping_view(&outv[x])
                            == mappings.deep_view()[x]);
                        assert(individual_mapping_ok(&outv[y]) && individual_mapping_view(&outv[y])
                            == mappings.deep_view()[y]);
                        assert(crate::endpoint::endpoint_levels(r.mappings@[x].endpoint@)
                            == individual_mapping_view(&r.mappings@[x]).endpoint);
                        assert(crate::endpoint::endpoint_levels(r.mappings@[y].endpoint@)
                            == individual_mapping_view(&r.mappings@[y]).endpoint);
                        assert(self@.endpoints()[x] == mappings.deep_view()[x].endpoint);
                        assert(self@.endpoints()[y] == mappings.deep_view()[y].endpoint);
                    }
                    assert(no_overlaps(&r));
                    assert(parsed_interface(&r).data->DatastreamIndividual_mappings
                        =~= mappings.deep_view());
                    assert(parsed_interface(&r) =~= self@);
                }
                r
            },
            InterfaceData::DatastreamObject {
                reliability,
                retention,
                database_retention,
                explicit_timestamp,
                mappings,
            } => {
                let n = mappings.len();
                assert(n == self@.endpoints().len());
                let mut out: Vec<Mapping> = Vec::new();
                let mut k: usize = 0;
                while k < n
                    invariant
                        k <= n,
                        out.len() == k,
                        forall|l: int|
                            0 <= l < k ==> object_mapping_ok(&(#[trigger] out@[l]))
                                && object_mapping_view(&out@[l]) == mappings.deep_view()[l],
                        forall|l: int|
                            0 <= l < k ==> individual_mapping_ok(&(#[trigger] out@[l]))
                                && individual_mapping_view(&out@[l]).reliability == *reliability
                                && individual_mapping_view(&out@[l]).retention == *retention
                                && individual_mapping_view(&out@[l]).database_retention
                                == *database_retention && individual_mapping_view(
                                &out@[l],
                            ).explicit_timestamp == *explicit_timestamp,
                        forall|l: int|
                            0 <= l < k ==> object_raw_attrs(
                                &(#[trigger] out@[l]),
                                *reliability,
                                *retention,
                                *database_retention,
                                *explicit_timestamp,
                            ),
                        forall|l: int|
                            0 <= l < k ==> (#[trigger] out@[l]).allow_unset is None
                                && out@[l].description is None && out@[l].doc is None,
                    decreases n - k,
                {
                    proof {
                        assert(self@.endpoints()[k as int] == mappings.deep_view()[
                            k as int
                        ].endpoint);
                    }
                    let m = Mapping::from_object(
                        &mappings[k],
                        *reliability,
                        *retention,
                        *database_retention,
                        *explicit_timestamp,
                    );
                    out.push(m);
                    k += 1;
                }
                let ghost outv = out@;
                assert forall|x: int| 0 <= x < n implies object_mapping_ok(
                    &(#[trigger] outv[x]),
                ) by {
                    assert(k == n);
                    assert(0 <= x < k);
                    assert(outv[x] == out@[x]);
                    assert(object_mapping_ok(&out@[x]) && object_mapping_view(&out@[x])
                        == mappings.deep_view()[x]);
                }
                assert forall|x: int| 0 <= x < n implies individual_mapping_ok(
                    &(#[trigger] outv[x]),
                ) by {
                    assert(k == n);
                    assert(0 <= x < k);
                    assert(outv[x] == out@[x]);
                    assert(individual_mapping_ok(&out@[x]) && individual_mapping_view(
                        &out@[x],
                    ).reliability == *reliability && individual_mapping_view(&out@[x]).retention
                        == *retention && individual_mapping_view(&out@[x]).database_retention
                        == *database_retention && individual_mapping_view(
                        &out@[x],
                    ).explicit_timestamp == *explicit_timestamp);
                }
                assert forall|x: int| 0 <= x < n implies object_mapping_view(&(#[trigger] outv[x]))
                    == mappings.deep_view()[x] by {
                    assert(k == n);
                    assert(0 <= x < k);
                    assert(outv[x] == out@[x]);
                    assert(object_mapping_ok(&out@[x]) && object_mapping_view(&out@[x])
                        == mappings.deep_view()[x]);
                }
                assert forall|x: int| 0 <= x < n implies object_raw_attrs(
                    &(#[trigger] outv[x]),
                    *reliability,
                    *retention,
                    *database_retention,
                    *explicit_timestamp,
                ) by {
                    assert(k == n);
                    assert(0 <= x < k);
                    assert(outv[x] == out@[x]);
                    assert(object_raw_attrs(
                        &out@[x],
                        *reliability,
                        *retention,
                        *database_retention,
                        *explicit_timestamp,
                    ));
                }
                assert forall|x: int| 0 <= x < n implies (#[trigger] outv[x]).allow_unset is None
                    && outv[x].description is None && outv[x].doc is None by {
                    assert(k == n);
                    assert(0 <= x < k);
                    assert(outv[x] == out@[x]);
                    assert(out@[x].allow_unset is None && out@[x].description is None && out@[
                        x
                    ].doc is None);
                }
                let r = InterfaceJson {
                    interface_name: self.name.clone(),
                    version_major: self.version_major,
                    version_minor: self.version_minor,
                    interface_type: InterfaceType::Datastream,
                    ownership: self.ownership,
                    aggregation: Some(Aggregation::Object),
                    description: None,
                    doc: None,
                    mappings: out,
                };
                proof {
                    assert(r.mappings@ == outv);
                    assert forall|x: int| 0 <= x < r.mappings.len() implies object_mapping_ok(
                        &(#[trigger] r.mappings@[x]),
                    ) && individual_mapping_ok(&r.mappings@[x]) && object_mapping_view(
                        &r.mappings@[x],
                    ) == mappings.deep_view()[x] && object_raw_attrs(
                        &r.mappings@[x],
                        *reliability,
                        *retention,
                        *database_retention,
                        *explicit_timestamp,
                    ) by {
                        assert(r.mappings@[x] == outv[x]);
                        assert(object_mapping_ok(&outv[x]));
                    }
                    assert forall|x: int, y: int| 0 <= x < y < n implies !levels_overlap(
                        crate::endpoint::endpoint_levels(#[trigger] r.mappings@[x].endpoint@),
                        crate::endpoint::endpoint_levels(#[trigger] r.mappings@[y].endpoint@),
                    ) by {
                        assert(r.mappings@[x] == outv[x] && r.mappings@[y] == outv[y]);
                        assert(object_mapping_view(&outv[x]) == mappings.deep_view()[x]);
                        assert(object_mapping_view(&outv[y]) == mappings.deep_view()[y]);
                        assert(crate::endpoint::endpoint_levels(r.mappings@[x].endpoint@)
                            == object_mapping_view(&r.mappings@[x]).endpoint);
                        assert(crate::endpoint::endpoint_levels(r.mappings@[y].endpoint@)
                            == object_mapping_view(&r.mappings@[y]).endpoint);
                        assert(self@.endpoints()[x] == mappings.deep_view()[x].endpoint);
                        assert(self@.endpoints()[y] == mappings.deep_view()[y].endpoint);
                    }
                    assert(no_overlaps(&r));
                    assert forall|x: int| 0 <= x < n implies object_attributes_eq(
                        &(#[trigger] r.mappings@[x]),
                        &r.mappings@[0],
                    ) by {
                        assert(r.mappings@[x] == outv[x] && r.mappings@[0] == outv[0]);
                        assert(object_raw_attrs(
                            &outv[x],
                            *reliability,
                            *retention,
                            *database_retention,
                            *explicit_timestamp,
                        ));
                        assert(object_raw_attrs(
                            &outv[0],
                            *reliability,
                            *retention,
                            *database_retention,
                            *explicit_timestamp,
                        ));
                    }
                    assert forall|x: int| 0 <= x < n implies (#[trigger] object_mapping_view(
                        &r.mappings@[x],
                    )).endpoint[0] == object_mapping_view(&r.mappings@[0]).endpoint[0] by {
                        assert(r.mappings@[x] == outv[x] && r.mappings@[0] == outv[0]);
                        assert(object_mapping_view(&outv[x]) == mappings.deep_view()[x]);
                        assert(object_mapping_view(&outv[0]) == mappings.deep_view()[0]);
                        assert(mappings.deep_view()[x].endpoint[0] == mappings.deep_view()[
                            0
                        ].endpoint[0]);
                    }
                    assert(spec_aggregation(&r) is Object);
                    assert(r.mappings.len() == n);
                    assert forall|k2: int| 0 <= k2 < r.mappings.len() implies object_mapping_ok(
                        &r.mappings[k2],
                    ) by {
                        assert(r.mappings@ == outv);
                        assert(0 <= k2 < n);
                        assert(r.mappings@[k2] == outv[k2]);
                        assert(object_mapping_ok(&outv[k2]));
                    }
                    assert forall|k2: int| 0 <= k2 < r.mappings.len() implies object_attributes_eq(
                        &r.mappings[k2],
                        &r.mappings[0],
                    ) by {
                        assert(r.mappings@[k2] == outv[k2] && r.mappings@[0] == outv[0]);
                        assert(object_raw_attrs(
                            &outv[k2],
                            *reliability,
                            *retention,
                            *database_retention,
                            *explicit_timestamp,
                        ));
                        assert(object_raw_attrs(
                            &outv[0],
                            *reliability,
                            *retention,
                            *database_retention,
                            *explicit_timestamp,
                        ));
                    }
                    assert(individual_mapping_ok(&r.mappings[0])) by {
                        assert(r.mappings@[0] == outv[0]);
                        assert(individual_mapping_ok(&outv[0]));
                    }
                    assert forall|k2: int| 0 <= k2 < r.mappings.len() implies (
                    #[trigger] object_mapping_view(&r.mappings[k2])).endpoint[0]
                        == object_mapping_view(&r.mappings[0]).endpoint[0] by {
                        assert(r.mappings@[k2] == outv[k2] && r.mappings@[0] == outv[0]);
                        assert(object_mapping_view(&outv[k2]) == mappings.deep_view()[k2]);
                        assert(object_mapping_view(&outv[0]) == mappings.deep_view()[0]);
                        assert(mappings.deep_view()[k2].endpoint[0] == mappings.deep_view()[
                            0
                        ].endpoint[0]);
                    }
                    assert(mappings_ok(&r));
                    assert(parsed_interface(&r).data->DatastreamObject_mappings
                        =~= mappings.deep_view());
                    assert(parsed_interface(&r) =~= self@);
                }
                r
            },
            InterfaceData::Properties { mappings } => {
                let n = mappings.len();
                assert(n == self@.endpoints().len());
                let mut out: Vec<Mapping> = Vec::new();
                let mut k: usize = 0;
                while k < n
                    invariant
                        k <= n,
                        out.len() == k,
                        forall|l: int|
                            0 <= l < k ==> properties_mapping_ok(&(#[trigger] out@[l]))
                                && properties_mapping_view(&out@[l]) == mappings.deep_view()[l],
                        forall|l: int|
                            0 <= l < k ==> (#[trigger] out@[l]).description is None
                                && out@[l].doc is None,
                    decreases n - k,
                {
                    proof {
                        assert(self@.endpoints()[k as int] == mappings.deep_view()[
                            k as int
                        ].endpoint);
                    }
                    let m = Mapping::from_properties(&mappings[k]);
                    out.push(m);
                    k += 1;
                }
                let ghost outv = out@;
                assert forall|x: int| 0 <= x < n implies properties_mapping_ok(
                    &(#[trigger] outv[x]),
                ) && properties_mapping_view(&outv[x]) == mappings.deep_view()[x] by {
                    assert(k == n);
                    assert(0 <= x < k);
                    assert(outv[x] == out@[x]);
                    assert(properties_mapping_ok(&out@[x]) && properties_mapping_view(&out@[x])
                        == mappings.deep_view()[x]);
                }
                let r = InterfaceJson {
                    interface_name: self.name.clone(),
                    version_major: self.version_major,
                    version_minor: self.version_minor,
                    interface_type: InterfaceType::Properties,
                    ownership: self.ownership,
                    aggregation: None,
                    description: None,
                    doc: None,
                    mappings: out,
                };
                proof {
                    assert(r.mappings@ == outv);
                    assert(r.mappings.len() == n);
                    assert forall|x: int| 0 <= x < r.mappings.len() implies properties_mapping_ok(
                        &r.mappings[x],
                    ) by {
                        assert(r.mappings@ == outv);
                        assert(0 <= x < n);
                        assert(r.mappings@[x] == outv[x]);
                        assert(properties_mapping_ok(&outv[x]) && properties_mapping_view(&outv[x])
                            == mappings.deep_view()[x]);
                    }
                    assert(mappings_ok(&r));
                    assert forall|x: int, y: int| 0 <= x < y < n implies !levels_overlap(
                        crate::endpoint::endpoint_levels(#[trigger] r.mappings@[x].endpoint@),
                        crate::endpoint::endpoint_levels(#[trigger] r.mappings@[y].endpoint@),
                    ) by {
                        assert(r.mappings@ == outv);
                        assert(0 <= x < n && 0 <= y < n);
                        assert(r.mappings@[x] == outv[x] && r.mappings@[y] == outv[y]);
                        assert(properties_mapping_ok(&outv[x]) && properties_mapping_view(&outv[x])
                            == mappings.deep_view()[x]);
                        assert(properties_mapping_ok(&outv[y]) && properties_mapping_view(&outv[y])
                            == mappings.deep_view()[y]);
                        assert(crate::endpoint::endpoint_levels(r.mappings@[x].endpoint@)
                            == properties_mapping_view(&r.mappings@[x]).endpoint);
                        assert(crate::endpoint::endpoint_levels(r.mappings@[y].endpoint@)
                            == properties_mapping_view(&r.mappings@[y]).endpoint);
                        assert(self@.endpoints()[x] == mappings.deep_view()[x].endpoint);
                        assert(self@.endpoints()[y] == mappings.deep_view()[y].endpoint);
                    }
                    assert(no_overlaps(&r));
                    assert(parsed_interface(&r).data->Properties_mappings
                        =~= mappings.deep_view());
                    assert(parsed_interface(&r) =~= self@);
                }
                r
            },
        }
    }

    /// The properties mapping of this interface that the concrete path
    /// resolves to: the first whose endpoint matches.  In a well-formed
    /// interface at most one mapping can match, so the first match is the
    /// only one.
    #[verifier::loop_isolation(false)]
    pub fn property_mapping(&self, path: &crate::endpoint::MappingPath) -> (r: Option<
        &PropertiesMapping,
    >)
        requires
            self@.wf(),
        ensures
            match r {
                Option::Some(m) => {
                    &&& self@.data matches InterfaceDataView::Properties { mappings }
                    &&& exists|k: int|
                        0 <= k < mappings.len() && (#[trigger] mappings[k]) == m@
                            && crate::endpoint::matches_path(m@.endpoint, path@)
                    &&& forall|k: int|
                        0 <= k < mappings.len() && crate::endpoint::matches_path(
                            (#[trigger] mappings[k]).endpoint,
                            path@,
                        ) ==> mappings[k] == m@
                },
                Option::None => !(self@.data is Properties) || (match self@.data {
                    InterfaceDataView::Properties { mappings } => forall|k: int|
                        0 <= k < mappings.len() ==> !crate::endpoint::matches_path(
                            (#[trigger] mappings[k]).endpoint,
                            path@,
                        ),
                    _ => true,
                }),
            },
    {
        match &self.data {
            InterfaceData::Properties { mappings } => {
                let ghost ms = mappings.deep_view();
                let n = mappings.len();
                let mut k: usize = 0;
                while k < n
                    invariant
                        k <= n,
                        forall|l: int|
                            0 <= l < k ==> !crate::endpoint::matches_path(
                                (#[trigger] ms[l]).endpoint,
                                path@,
                            ),
                    decreases n - k,
                {
                    if mappings[k].endpoint().matches(path) {
                        let m = &mappings[k];
                        proof {
                            assert(ms[k as int] == m@);
                            assert(crate::endpoint::matches_path(m@.endpoint, path@));
                            assert(self@.data->Properties_mappings == ms);
                            assert forall|l: int|
                                0 <= l < ms.len() && crate::endpoint::matches_path(
                                    (#[trigger] ms[l]).endpoint,
                                    path@,
                                ) implies ms[l] == m@ by {
                                if l != k {
                                    assert(crate::endpoint::matches_path(
                                        ms[k as int].endpoint,
                                        path@,
                                    ));
                                    crate::endpoint::lemma_two_matches_overlap(
                                        ms[l].endpoint,
                                        ms[k as int].endpoint,
                                        path@,
                                    );
                                    assert(self@.endpoints()[l] == ms[l].endpoint);
                                    assert(self@.endpoints()[k as int] == ms[k as int].endpoint);
                                    if l < k {
                                        assert(!levels_overlap(
                                            self@.endpoints()[l],
                                            self@.endpoints()[k as int],
                                        ));
                                        crate::endpoint::lemma_overlap_symmetric(
                                            ms[l].endpoint,
                                            ms[k as int].endpoint,
                                        );
                                    } else {
                                        assert(!levels_overlap(
                                            self@.endpoints()[k as int],
                                            self@.endpoints()[l],
                                        ));
                                        crate::endpoint::lemma_overlap_symmetric(
                                            ms[k as int].endpoint,
                                            ms[l].endpoint,
                                        );
                                    }
                                }
                            }
                        }
                        return Some(m);
                    }
                    k += 1;
                }
                None
            },
            _ => None,
        }
    }

    /// True if this interface is a minor-compatible extension of `old`:
    /// same major version, a minor version at least as high, the same
    /// kind and shared settings, and every mapping of `old` present
    /// unchanged.
    #[verifier::loop_isolation(false)]
    pub fn is_extension_of(&self, old: &Interface) -> (r: bool)
        ensures
            r == interface_extends(self@, old@),
    {
        if self.version_major != old.version_major || self.version_minor < old.version_minor {
            return false;
        }
        match (&self.data, &old.data) {
            (
                InterfaceData::DatastreamIndividual { mappings: new_m },
                InterfaceData::DatastreamIndividual { mappings: old_m },
            ) => {
                let mut k: usize = 0;
                while k < old_m.len()
                    invariant
                        k <= old_m.len(),
                        forall|l: int|
                            0 <= l < k ==> new_m.deep_view().contains(
                                #[trigger] old_m.deep_view()[l],
                            ),
                    decreases old_m.len() - k,
                {
                    let mut found = false;
                    let mut l: usize = 0;
                    while l < new_m.len()
                        invariant
                            l <= new_m.len(),
                            k < old_m.len(),
                            !found ==> forall|x: int|
                                0 <= x < l ==> new_m.deep_view()[x] != old_m.deep_view()[k as int],
                            found ==> new_m.deep_view().contains(old_m.deep_view()[k as int]),
                        decreases new_m.len() - l,
                    {
                        if new_m[l].same_mapping(&old_m[k]) {
                            assert(new_m.deep_view()[l as int] == old_m.deep_view()[k as int]);
                            found = true;
                        }
                        l += 1;
                    }
                    if !found {
                        assert(!new_m.deep_view().contains(old_m.deep_view()[k as int]));
                        assert(old@.data->DatastreamIndividual_mappings == old_m.deep_view());
                        assert(self@.data->DatastreamIndividual_mappings == new_m.deep_view());
                        assert(!interface_extends(self@, old@));
                        return false;
                    }
                    k += 1;
                }
                true
            },
            (
                InterfaceData::DatastreamObject {
                    reliability: new_rel,
                    retention: new_ret,
                    database_retention: new_db,
                    explicit_timestamp: new_ts,
                    mappings: new_m,
                },
                InterfaceData::DatastreamObject {
                    reliability: old_rel,
                    retention: old_ret,
                    database_retention: old_db,
                    explicit_timestamp: old_ts,
                    mappings: old_m,
                },
            ) => {
                if !(new_rel == old_rel && new_ret == old_ret && new_db == old_db && new_ts
                    == old_ts) {
                    return false;
                }
                let mut k: usize = 0;
                while k < old_m.len()
                    invariant
                        k <= old_m.len(),
                        forall|l: int|
                            0 <= l < k ==> new_m.deep_view().contains(
                                #[trigger] old_m.deep_view()[l],
                            ),
                    decreases old_m.len() - k,
                {
                    let mut found = false;
                    let mut l: usize = 0;
                    while l < new_m.len()
                        invariant
                            l <= new_m.len(),
                            k < old_m.len(),
                            !found ==> forall|x: int|
                                0 <= x < l ==> new_m.deep_view()[x] != old_m.deep_view()[k as int],
                            found ==> new_m.deep_view().contains(old_m.deep_view()[k as int]),
                        decreases new_m.len() - l,
                    {
                        if new_m[l].same_mapping(&old_m[k]) {
                            assert(new_m.deep_view()[l as int] == old_m.deep_view()[k as int]);
                            found = true;
                        }
                        l += 1;
                    }
                    if !found {
                        assert(!new_m.deep_view().contains(old_m.deep_view()[k as int]));
                        assert(old@.data->DatastreamObject_mappings == old_m.deep_view());
                        assert(self@.data->DatastreamObject_mappings == new_m.deep_view());
                        assert(!interface_extends(self@, old@));
                        return false;
                    }
                    k += 1;
                }
                true
            },
            (
                InterfaceData::Properties { mappings: new_m },
                InterfaceData::Properties { mappings: old_m },
            ) => {
                let mut k: usize = 0;
                while k < old_m.len()
                    invariant
                        k <= old_m.len(),
                        forall|l: int|
                            0 <= l < k ==> new_m.deep_view().contains(
                                #[trigger] old_m.deep_view()[l],
                            ),
                    decreases old_m.len() - k,
                {
                    let mut found = false;
                    let mut l: usize = 0;
                    while l < new_m.len()
                        invariant
                            l <= new_m.len(),
                            k < old_m.len(),
                            !found ==> forall|x: int|
                                0 <= x < l ==> new_m.deep_view()[x] != old_m.deep_view()[k as int],
                            found ==> new_m.deep_view().contains(old_m.deep_view()[k as int]),
                        decreases new_m.len() - l,
                    {
                        if new_m[l].same_mapping(&old_m[k]) {
                            assert(new_m.deep_view()[l as int] == old_m.deep_view()[k as int]);
                            found = true;
                        }
                        l += 1;
                    }
                    if !found {
                        assert(!new_m.deep_view().contains(old_m.deep_view()[k as int]));
                        assert(old@.data->Properties_mappings == old_m.deep_view());
                        assert(self@.data->Properties_mappings == new_m.deep_view());
                        assert(!interface_extends(self@, old@));
                        return false;
                    }
                    k += 1;
                }
                true
            },
            _ => {
                assert(!interface_extends(self@, old@));
                false
            },
        }
    }

    /// Validates an interface definition, accepting exactly the
    /// definitions that satisfy the schema invariants, and builds the
    /// in-memory interface they denote.
    #[verifier::loop_isolation(false)]
    #[verifier::rlimit(30)]
    pub fn try_from_json(json: &InterfaceJson) -> (r: Result<Interface, InterfaceError>)
        ensures
            r is Ok <==> valid_interface_json(json),
            r matches Ok(i) ==> i@ == parsed_interface(json) && i@.wf(),
            r matches Err(InterfaceError::MajorMinor) <==> !versions_ok(json),
            r matches Err(InterfaceError::Mapping(MappingError::Empty)) <==> versions_ok(json)
                && json.mappings.len() == 0,
            r matches Err(InterfaceError::Mapping(MappingError::TooMany(n))) ==> n
                == json.mappings.len(),
            (r matches Err(InterfaceError::Mapping(MappingError::TooMany(_)))) <==> versions_ok(
                json,
            ) && json.mappings.len() > MAX_INTERFACE_MAPPINGS,
            r matches Err(InterfaceError::PropertiesWithObject) ==> json.interface_type
                 is Properties && spec_aggregation(json) is Object,
            (r matches Err(InterfaceError::Mapping(MappingError::Duplicated { .. }))) <==> {
                &&& versions_ok(json)
                &&& 1 <= json.mappings.len() <= MAX_INTERFACE_MAPPINGS
                &&& mappings_ok(json)
                &&& !no_overlaps(json)
            },
            r matches Err(InterfaceError::Mapping(MappingError::Duplicated { endpoint })) ==> {
                // The carried endpoint is the second member of the first
                // overlapping pair.
                exists|k: int|
                    #![auto]
                    {
                        &&& 0 < k < json.mappings.len()
                        &&& endpoint.text@ == json.mappings[k].endpoint@
                        &&& exists|l: int| 0 <= l < k && overlaps_at(json, l, k)
                        &&& forall|x: int, y: int| 0 <= x < y < k ==> !overlaps_at(json, x, y)
                    }
            },
    {
        if json.version_major < 0 || json.version_minor < 0 || (json.version_major == 0
            && json.version_minor == 0) {
            return Err(InterfaceError::MajorMinor);
        }
        let n = json.mappings.len();
        if n == 0 {
            return Err(InterfaceError::Mapping(MappingError::Empty));
        }
        if n > MAX_INTERFACE_MAPPINGS {
            return Err(InterfaceError::Mapping(MappingError::TooMany(n)));
        }
        let aggregation = match json.aggregation {
            Some(a) => a,
            None => Aggregation::Individual,
        };
        let data: InterfaceData = match (json.interface_type, aggregation) {
            (InterfaceType::Datastream, Aggregation::Individual) => {
                let mut mappings: Vec<DatastreamIndividualMapping> = Vec::new();
                let mut k: usize = 0;
                while k < n
                    invariant
                        k <= n,
                        mappings.len() == k,
                        forall|l: int| 0 <= l < k ==> individual_mapping_ok(&json.mappings@[l]),
                        forall|l: int|
                            0 <= l < k ==> mappings.deep_view()[l] == individual_mapping_view(
                                &json.mappings@[l],
                            ),
                    decreases n - k,
                {
                    match DatastreamIndividualMapping::try_from(&json.mappings[k]) {
                        Ok(m) => {
                            let ghost prev = mappings.deep_view();
                            let ghost mv = m@;
                            mappings.push(m);
                            proof {
                                assert(mappings.deep_view() =~= prev.push(mv));
                            }
                        },
                        Err(e) => {
                            assert(!individual_mapping_ok(&json.mappings@[k as int]));
                            return Err(InterfaceError::Mapping(e));
                        },
                    }
                    k += 1;
                }
                let data = InterfaceData::DatastreamIndividual { mappings };
                assert(data_view(&data) =~= parsed_interface(json).data) by {
                    assert(data_view(&data)->DatastreamIndividual_mappings =~= parsed_interface(
                        json,
                    ).data->DatastreamIndividual_mappings);
                }
                assert(mappings_ok(json));
                data
            },
            (InterfaceType::Datastream, Aggregation::Object) => {
                let head = match DatastreamIndividualMapping::try_from(&json.mappings[0]) {
                    Ok(m) => m,
                    Err(e) => {
                        assert(!individual_mapping_ok(&json.mappings@[0]));
                        return Err(InterfaceError::Mapping(e));
                    },
                };
                let mut mappings: Vec<DatastreamObjectMapping> = Vec::new();
                let mut k: usize = 0;
                while k < n
                    invariant
                        k <= n,
                        mappings.len() == k,
                        forall|l: int| 0 <= l < k ==> object_mapping_ok(&json.mappings@[l]),
                        forall|l: int|
                            0 <= l < k ==> object_attributes_eq(
                                &json.mappings@[l],
                                &json.mappings@[0],
                            ),
                        forall|l: int|
                            0 <= l < k ==> mappings.deep_view()[l] == object_mapping_view(
                                &json.mappings@[l],
                            ),
                    decreases n - k,
                {
                    if !object_attributes_match(&json.mappings[k], &json.mappings[0]) {
                        assert(!object_attributes_eq(&json.mappings@[k as int], &json.mappings@[0]));
                        return Err(InterfaceError::ObjectAttributes);
                    }
                    match DatastreamObjectMapping::try_from(&json.mappings[k]) {
                        Ok(m) => {
                            let ghost prev = mappings.deep_view();
                            let ghost mv = m@;
                            mappings.push(m);
                            proof {
                                assert(mappings.deep_view() =~= prev.push(mv));
                            }
                        },
                        Err(e) => {
                            assert(!object_mapping_ok(&json.mappings@[k as int]));
                            return Err(InterfaceError::Mapping(e));
                        },
                    }
                    k += 1;
                }
                let mut k: usize = 1;
                while k < n
                    invariant
                        1 <= k,
                        k <= n || n == 0,
                        mappings.len() == n,
                        forall|l: int|
                            0 <= l < n ==> mappings.deep_view()[l] == object_mapping_view(
                                &json.mappings@[l],
                            ),
                        forall|l: int|
                            0 <= l < k && l < n ==> (#[trigger] mappings.deep_view()[l]).endpoint[0]
                                == mappings.deep_view()[0].endpoint[0],
                    decreases n - k,
                {
                    assert(mappings.deep_view()[k as int].endpoint.len() >= 2);
                    assert(mappings.deep_view()[0].endpoint.len() >= 2);
                    if !crate::endpoint::level_eq(
                        mappings[k].endpoint().level(0),
                        mappings[0].endpoint().level(0),
                    ) {
                        assert(object_mapping_view(&json.mappings@[k as int]).endpoint[0]
                            != object_mapping_view(&json.mappings@[0]).endpoint[0]);
                        return Err(InterfaceError::ObjectPrefix);
                    }
                    k += 1;
                }
                assert forall|l: int| 0 <= l < n implies (#[trigger] object_mapping_view(
                    &json.mappings@[l],
                )).endpoint[0] == object_mapping_view(&json.mappings@[0]).endpoint[0] by {
                    assert(mappings.deep_view()[l] == object_mapping_view(&json.mappings@[l]));
                    assert(mappings.deep_view()[0] == object_mapping_view(&json.mappings@[0]));
                }
                let data = InterfaceData::DatastreamObject {
                    reliability: head.reliability(),
                    retention: head.retention(),
                    database_retention: head.database_retention(),
                    explicit_timestamp: head.explicit_timestamp(),
                    mappings,
                };
                assert(data_view(&data) =~= parsed_interface(json).data) by {
                    assert(data_view(&data)->DatastreamObject_mappings =~= parsed_interface(
                        json,
                    ).data->DatastreamObject_mappings);
                }
                assert(mappings_ok(json));
                data
            },
            (InterfaceType::Properties, Aggregation::Object) => {
                return Err(InterfaceError::PropertiesWithObject);
            },
            (InterfaceType::Properties, Aggregation::Individual) => {
                let mut mappings: Vec<PropertiesMapping> = Vec::new();
                let mut k: usize = 0;
                while k < n
                    invariant
                        k <= n,
                        mappings.len() == k,
                        forall|l: int| 0 <= l < k ==> properties_mapping_ok(&json.mappings@[l]),
                        forall|l: int|
                            0 <= l < k ==> mappings.deep_view()[l] == properties_mapping_view(
                                &json.mappings@[l],
                            ),
                    decreases n - k,
                {
                    match PropertiesMapping::try_from(&json.mappings[k]) {
                        Ok(m) => {
                            let ghost prev = mappings.deep_view();
                            let ghost mv = m@;
                            mappings.push(m);
                            proof {
                                assert(mappings.deep_view() =~= prev.push(mv));
                            }
                        },
                        Err(e) => {
                            assert(!properties_mapping_ok(&json.mappings@[k as int]));
                            return Err(InterfaceError::Mapping(e));
                        },
                    }
                    k += 1;
                }
                let data = InterfaceData::Properties { mappings };
                assert(data_view(&data) =~= parsed_interface(json).data) by {
                    assert(data_view(&data)->Properties_mappings =~= parsed_interface(
                        json,
                    ).data->Properties_mappings);
                }
                assert(mappings_ok(json));
                data
            },
        };
        let ghost raw = Seq::new(json.mappings.len() as nat, |k: int| json.mappings@[k].endpoint@);
        let duplicated = match &data {
            InterfaceData::DatastreamIndividual { mappings } => {
                assert forall|k: int| 0 <= k < mappings.len() implies mappings@[k].spec_endpoint()
                    == crate::endpoint::endpoint_levels(#[trigger] raw[k]) by {
                    assert(mappings.deep_view()[k] == individual_mapping_view(&json.mappings@[k]));
                }
                check_overlaps(mappings, Ghost(raw))
            },
            InterfaceData::DatastreamObject { mappings, .. } => {
                assert forall|k: int| 0 <= k < mappings.len() implies mappings@[k].spec_endpoint()
                    == crate::endpoint::endpoint_levels(#[trigger] raw[k]) by {
                    assert(mappings.deep_view()[k] == object_mapping_view(&json.mappings@[k]));
                }
                check_overlaps(mappings, Ghost(raw))
            },
            InterfaceData::Properties { mappings } => {
                assert forall|k: int| 0 <= k < mappings.len() implies mappings@[k].spec_endpoint()
                    == crate::endpoint::endpoint_levels(#[trigger] raw[k]) by {
                    assert(mappings.deep_view()[k] == properties_mapping_view(&json.mappings@[k]));
                }
                check_overlaps(mappings, Ghost(raw))
            },
        };
        match duplicated {
            Some(k) => {
                proof {
                    let l = choose|l: int|
                        0 <= l < k && levels_overlap(
                            crate::endpoint::endpoint_levels(#[trigger] raw[l]),
                            crate::endpoint::endpoint_levels(raw[k as int]),
                        );
                    assert(raw[l] == json.mappings@[l].endpoint@);
                    assert(raw[k as int] == json.mappings@[k as int].endpoint@);
                    assert(overlaps_at(json, l, k as int));
                    assert(!no_overlaps(json));
                    assert forall|x: int, y: int| 0 <= x < y < k implies !overlaps_at(
                        json,
                        x,
                        y,
                    ) by {
                        assert(raw[x] == json.mappings@[x].endpoint@);
                        assert(raw[y] == json.mappings@[y].endpoint@);
                        assert(!levels_overlap(
                            crate::endpoint::endpoint_levels(raw[x]),
                            crate::endpoint::endpoint_levels(raw[y]),
                        ));
                    }
                }
                Err(
                    InterfaceError::Mapping(
                        MappingError::Duplicated {
                            endpoint: crate::mapping::EndpointText {
                                text: json.mappings[k].endpoint.clone(),
                            },
                        },
                    ),
                )
            },
            None => {
                assert forall|k: int, l: int| 0 <= k < l < json.mappings.len() implies !levels_overlap(
                    crate::endpoint::endpoint_levels(#[trigger] json.mappings@[k].endpoint@),
                    crate::endpoint::endpoint_levels(#[trigger] json.mappings@[l].endpoint@),
                ) by {
                    assert(raw[k] == json.mappings@[k].endpoint@);
                    assert(raw[l] == json.mappings@[l].endpoint@);
                }
                assert(no_overlaps(json));
                let interface = Interface {
                    name: json.interface_name.clone(),
                    version_major: json.version_major,
                    version_minor: json.version_minor,
                    ownership: json.ownership,
                    data,
                };
                assert(valid_interface_json(json));
                assert(interface@ =~= parsed_interface(json));
                proof {
                    lemma_parsed_interface_wf(json);
                }
                Ok(interface)
            },
        }
    }
}

} // verus!
