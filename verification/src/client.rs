//! The device client: the decision core of the publication pipeline.
//!
//! The client owns the interface registry, the property store and the
//! connection status.  Every operation validates its input, updates the
//! store, and records the frames the transport must send as plain data in
//! an outbox; the surrounding program drains the outbox and performs the
//! I/O.  This keeps the ordering contracts — persisted before emitted,
//! introspection advertised before data — checkable facts about one value.

use vstd::prelude::*;

use crate::endpoint::MappingPath;
use crate::mapping::InterfaceMapping;
use crate::endpoint::matches_path;
use crate::error::Error;
use crate::error::ValidationError;
use crate::interface::Interface;
use crate::interface::InterfaceDataView;
use crate::interface::InterfaceView;
use crate::interfaces::AddResult;
use crate::interfaces::Interfaces;
use crate::interfaces::find_interface;
use crate::interfaces::lemma_find_interface_wf;
use crate::interfaces::intro_chars;
use crate::interfaces::registry_wf;
use crate::interfaces::remove_name;
use crate::interfaces::spec_add_result;
use crate::interfaces::spec_registry_add;
use crate::schema::Ownership;
use crate::store::MemoryStore;
use crate::store::PropEntryView;
use crate::store::StoredProp;
use crate::store::find_entry;
use crate::store::store_wf;
use crate::types::AstarteData;
use crate::types::DataView;
use crate::types::clone_data;
use crate::types::data_valid;
use crate::types::spec_data_mapping_type;

verus! {

/// Status of the connection to the broker.
#[derive(Debug, Clone, Copy, PartialEq, Eq, Structural)]
pub enum ConnectionStatus {
    /// No connection.
    Disconnected,
    /// A connection is being established.
    Connecting,
    /// The connection is up; queued publications drain.
    Connected,
}

/// Mathematical value of a [`Frame`].
pub enum FrameView {
    Subscribe { topic: Seq<char> },
    SubscribeMany { topics: Seq<Seq<char>> },
    Unsubscribe { topic: Seq<char> },
    Publish { topic: Seq<char>, payload: Seq<char> },
    SendProperty { interface: Seq<char>, path: Seq<char>, value: DataView },
    UnsetProperty { interface: Seq<char>, path: Seq<char> },
}

/// A frame for the transport, recorded in submission order.
#[derive(Debug)]
pub enum Frame {
    /// Subscribe to a server-owned interface's topic.
    Subscribe {
        /// The topic filter.
        topic: String,
    },
    /// Subscribe to several topics in one call.
    SubscribeMany {
        /// The topic filters.
        topics: Vec<String>,
    },
    /// Unsubscribe from a server-owned interface's topic.
    Unsubscribe {
        /// The topic filter.
        topic: String,
    },
    /// Publish a payload; used for the introspection string.
    Publish {
        /// The topic.
        topic: String,
        /// The payload.
        payload: String,
    },
    /// Publish a property value.
    SendProperty {
        /// Name of the interface.
        interface: String,
        /// Path of the property.
        path: String,
        /// The value.
        value: AstarteData,
    },
    /// Publish a property unset.
    UnsetProperty {
        /// Name of the interface.
        interface: String,
        /// Path of the property.
        path: String,
    },
}

impl View for Frame {
    type V = FrameView;

    open spec fn view(&self) -> FrameView {
        match self {
            Frame::Subscribe { topic } => FrameView::Subscribe { topic: topic@ },
            Frame::SubscribeMany { topics } => FrameView::SubscribeMany {
                topics: topics.deep_view(),
            },
            Frame::Unsubscribe { topic } => FrameView::Unsubscribe { topic: topic@ },
            Frame::Publish { topic, payload } => FrameView::Publish {
                topic: topic@,
                payload: payload@,
            },
            Frame::SendProperty { interface, path, value } => FrameView::SendProperty {
                interface: interface@,
                path: path@,
                value: value@,
            },
            Frame::UnsetProperty { interface, path } => FrameView::UnsetProperty {
                interface: interface@,
                path: path@,
            },
        }
    }
}

impl DeepView for Frame {
    type V = FrameView;

    open spec fn deep_view(&self) -> FrameView {
        self.view()
    }
}

/// The base topic of a device: `realm/device_id`.
pub open spec fn base_topic_chars(realm: Seq<char>, device_id: Seq<char>) -> Seq<char> {
    realm + seq!['/'] + device_id
}

/// The subscription topic of a server-owned interface:
/// `realm/device_id/<name>/#`.
pub open spec fn interface_topic_chars(
    realm: Seq<char>,
    device_id: Seq<char>,
    name: Seq<char>,
) -> Seq<char> {
    base_topic_chars(realm, device_id) + seq!['/'] + name + seq!['/', '#']
}

/// A device publish on the given key is acceptable: the interface is
/// registered and device-owned, some mapping of its properties matches
/// the path, the value kind equals the mapping type and the value is
/// valid.
pub open spec fn send_allowed(
    interfaces: Seq<InterfaceView>,
    name: Seq<char>,
    path: Seq<Seq<char>>,
    data: DataView,
) -> bool {
    match find_interface(interfaces, name) {
        Option::Some(iv) => {
            &&& iv.ownership is Device
            &&& data_valid(data)
            &&& match iv.data {
                InterfaceDataView::Properties { mappings } => exists|k: int|
                    0 <= k < mappings.len() && matches_path(
                        (#[trigger] mappings[k]).endpoint,
                        path,
                    ) && mappings[k].mapping_type == spec_data_mapping_type(data),
                _ => false,
            }
        },
        Option::None => false,
    }
}

/// The interface is a properties interface and some of its mappings
/// matches the path.
pub open spec fn resolves_property(iv: InterfaceView, path: Seq<Seq<char>>) -> bool {
    match iv.data {
        InterfaceDataView::Properties { mappings } => exists|k: int|
            0 <= k < mappings.len() && matches_path((#[trigger] mappings[k]).endpoint, path),
        _ => false,
    }
}

/// The interface is a properties interface and the path resolves to a
/// mapping whose type is the kind of the value.
pub open spec fn resolves_property_typed(
    iv: InterfaceView,
    path: Seq<Seq<char>>,
    data: DataView,
) -> bool {
    match iv.data {
        InterfaceDataView::Properties { mappings } => exists|k: int|
            0 <= k < mappings.len() && matches_path((#[trigger] mappings[k]).endpoint, path)
                && mappings[k].mapping_type == spec_data_mapping_type(data),
        _ => false,
    }
}

/// The interface is a properties interface and the path resolves to a
/// mapping that allows unsetting.
pub open spec fn resolves_property_unsettable(iv: InterfaceView, path: Seq<Seq<char>>) -> bool {
    match iv.data {
        InterfaceDataView::Properties { mappings } => exists|k: int|
            0 <= k < mappings.len() && matches_path((#[trigger] mappings[k]).endpoint, path)
                && mappings[k].allow_unset,
        _ => false,
    }
}

/// An unset on the given key is acceptable: the interface is registered
/// and device-owned and the matching properties mapping allows unsetting.
pub open spec fn unset_allowed(
    interfaces: Seq<InterfaceView>,
    name: Seq<char>,
    path: Seq<Seq<char>>,
) -> bool {
    match find_interface(interfaces, name) {
        Option::Some(iv) => {
            &&& iv.ownership is Device
            &&& match iv.data {
                InterfaceDataView::Properties { mappings } => exists|k: int|
                    0 <= k < mappings.len() && matches_path(
                        (#[trigger] mappings[k]).endpoint,
                        path,
                    ) && mappings[k].allow_unset,
                _ => false,
            }
        },
        Option::None => false,
    }
}

/// The same value is already stored under the key with the same major
/// version, so a publish would be a duplicate.
pub open spec fn dedup_hit(
    store: Seq<PropEntryView>,
    name: Seq<char>,
    path: Seq<char>,
    major: int,
    data: DataView,
) -> bool {
    match find_entry(store, name, path) {
        Option::Some(e) => e.interface_major == major && e.value == Some(data),
        Option::None => false,
    }
}

/// The frames that registering one interface over the given registry
/// records: on a new server-owned name a subscription, then — whenever
/// the introspection changed — its new canonical string; nothing on a
/// kept version or a refusal.
pub open spec fn add_frames(
    realm: Seq<char>,
    device_id: Seq<char>,
    s: Seq<InterfaceView>,
    iv: InterfaceView,
) -> Seq<FrameView> {
    match spec_add_result(s, iv) {
        Ok(AddResult::Added) => (if iv.ownership is Server {
            seq![
                FrameView::Subscribe { topic: interface_topic_chars(realm, device_id, iv.name) },
            ]
        } else {
            Seq::empty()
        }) + seq![
            FrameView::Publish {
                topic: base_topic_chars(realm, device_id),
                payload: intro_chars(crate::interfaces::insert_sorted(s, iv)),
            },
        ],
        Ok(AddResult::Replaced) => seq![
            FrameView::Publish {
                topic: base_topic_chars(realm, device_id),
                payload: intro_chars(crate::interfaces::replace_name(s, iv)),
            },
        ],
        _ => Seq::empty(),
    }
}

/// What a batch registration does, processed front to back: whether every
/// candidate was accepted, the registry it leaves, the frames it records
/// and the names that changed the introspection.  A refused candidate
/// stops the batch with the earlier registrations applied.
pub struct ExtendOutcome {
    pub ok: bool,
    pub interfaces: Seq<InterfaceView>,
    pub frames: Seq<FrameView>,
    pub names: Seq<Seq<char>>,
}

pub open spec fn extend_outcome(
    realm: Seq<char>,
    device_id: Seq<char>,
    s: Seq<InterfaceView>,
    ivs: Seq<InterfaceView>,
    k: int,
) -> ExtendOutcome
    decreases ivs.len() - k,
    when 0 <= k <= ivs.len()
{
    if k >= ivs.len() {
        ExtendOutcome { ok: true, interfaces: s, frames: Seq::empty(), names: Seq::empty() }
    } else {
        match spec_add_result(s, ivs[k]) {
            Err(_) => ExtendOutcome {
                ok: false,
                interfaces: s,
                frames: Seq::empty(),
                names: Seq::empty(),
            },
            Ok(res) => {
                let rest = extend_outcome(
                    realm,
                    device_id,
                    spec_registry_add(s, ivs[k]),
                    ivs,
                    k + 1,
                );
                ExtendOutcome {
                    ok: rest.ok,
                    interfaces: rest.interfaces,
                    frames: add_frames(realm, device_id, s, ivs[k]) + rest.frames,
                    names: (if res is Unchanged {
                        Seq::empty()
                    } else {
                        seq![ivs[k].name]
                    }) + rest.names,
                }
            },
        }
    }
}

/// What a batch removal does, processed front to back: the registry it
/// leaves, the frames it records and the names that were registered and
/// are now removed.
pub struct RemoveOutcome {
    pub interfaces: Seq<InterfaceView>,
    pub frames: Seq<FrameView>,
    pub names: Seq<Seq<char>>,
}

pub open spec fn remove_outcome(
    realm: Seq<char>,
    device_id: Seq<char>,
    s: Seq<InterfaceView>,
    names: Seq<Seq<char>>,
    k: int,
) -> RemoveOutcome
    decreases names.len() - k,
    when 0 <= k <= names.len()
{
    if k >= names.len() {
        RemoveOutcome { interfaces: s, frames: Seq::empty(), names: Seq::empty() }
    } else {
        match find_interface(s, names[k]) {
            Option::Some(o) => {
                let s2 = remove_name(s, names[k]);
                let rest = remove_outcome(realm, device_id, s2, names, k + 1);
                RemoveOutcome {
                    interfaces: rest.interfaces,
                    frames: seq![
                        FrameView::Publish {
                            topic: base_topic_chars(realm, device_id),
                            payload: intro_chars(s2),
                        },
                    ] + (if o.ownership is Server {
                        seq![
                            FrameView::Unsubscribe {
                                topic: interface_topic_chars(realm, device_id, names[k]),
                            },
                        ]
                    } else {
                        Seq::empty()
                    }) + rest.frames,
                    names: seq![names[k]] + rest.names,
                }
            },
            Option::None => remove_outcome(realm, device_id, s, names, k + 1),
        }
    }
}

/// Publishing the same key and value twice emits exactly once: the store
/// state that a successful emitting publish leaves behind is a duplicate
/// hit for a second publish of the same value, which
/// [`DeviceClient::send_property`] then completes without recording a
/// frame.
pub proof fn lemma_second_send_is_duplicate(
    store: Seq<PropEntryView>,
    name: Seq<char>,
    path: Seq<char>,
    major: int,
    data: DataView,
)
    requires
        find_entry(store, name, path) == Some(
            PropEntryView {
                interface: name,
                path,
                value: Some(data),
                interface_major: major,
                ownership: Ownership::Device,
            },
        ),
    ensures
        dedup_hit(store, name, path, major, data),
{
}

/// The device client.
#[derive(Debug)]
pub struct DeviceClient {
    realm: String,
    device_id: String,
    interfaces: Interfaces,
    store: MemoryStore,
    status: ConnectionStatus,
    frames: Vec<Frame>,
}

impl DeviceClient {
    /// The registered interfaces, in name order.
    pub closed spec fn spec_interfaces(&self) -> Seq<InterfaceView> {
        self.interfaces@
    }

    /// The rows of the property store.
    pub closed spec fn spec_store(&self) -> Seq<PropEntryView> {
        self.store@
    }

    /// The connection status.
    pub closed spec fn spec_status(&self) -> ConnectionStatus {
        self.status
    }

    /// The recorded frames, in submission order.
    pub closed spec fn spec_frames(&self) -> Seq<FrameView> {
        self.frames.deep_view()
    }

    /// The realm of the device.
    pub closed spec fn spec_realm(&self) -> Seq<char> {
        self.realm@
    }

    /// The id of the device.
    pub closed spec fn spec_device_id(&self) -> Seq<char> {
        self.device_id@
    }

    /// The client invariant: registry and store well-formed.
    pub open spec fn wf(&self) -> bool {
        registry_wf(self.spec_interfaces()) && store_wf(self.spec_store())
    }

    /// A disconnected client with no interfaces, an empty store and an
    /// empty outbox.
    pub fn new(realm: String, device_id: String) -> (r: DeviceClient)
        ensures
            r.wf(),
            r.spec_realm() == realm@,
            r.spec_device_id() == device_id@,
            r.spec_interfaces() == Seq::<InterfaceView>::empty(),
            r.spec_store() == Seq::<PropEntryView>::empty(),
            r.spec_status() == ConnectionStatus::Disconnected,
            r.spec_frames() == Seq::<FrameView>::empty(),
    {
        let r = DeviceClient {
            realm,
            device_id,
            interfaces: Interfaces::new(),
            store: MemoryStore::new(),
            status: ConnectionStatus::Disconnected,
            frames: Vec::new(),
        };
        assert(r.spec_frames() =~= Seq::<FrameView>::empty());
        r
    }

    /// The connection status.
    pub fn status(&self) -> (r: ConnectionStatus)
        ensures
            r == self.spec_status(),
    {
        self.status
    }

    /// Hands the recorded frames out in submission order and empties the
    /// outbox.
    pub fn take_frames(&mut self) -> (r: Vec<Frame>)
        ensures
            r.deep_view() == old(self).spec_frames(),
            final(self).spec_frames() == Seq::<FrameView>::empty(),
            final(self).spec_interfaces() == old(self).spec_interfaces(),
            final(self).spec_store() == old(self).spec_store(),
            final(self).spec_status() == old(self).spec_status(),
            final(self).spec_realm() == old(self).spec_realm(),
            final(self).spec_device_id() == old(self).spec_device_id(),
            old(self).wf() ==> final(self).wf(),
    {
        let mut out: Vec<Frame> = Vec::new();
        core::mem::swap(&mut out, &mut self.frames);
        assert(self.frames.deep_view() =~= Seq::<FrameView>::empty());
        out
    }

    /// The canonical introspection string of the registered interfaces.
    pub fn introspection(&self) -> (r: String)
        requires
            self.wf(),
        ensures
            r@ == intro_chars(self.spec_interfaces()),
    {
        self.interfaces.introspection()
    }

    /// A reference to the registered interface with the given name.
    pub fn get_interface(&self, name: &str) -> (r: Option<&Interface>)
        requires
            self.wf(),
        ensures
            match r {
                Option::Some(i) => find_interface(self.spec_interfaces(), name@) == Some(i@),
                Option::None => find_interface(self.spec_interfaces(), name@) is None,
            },
    {
        self.interfaces.get_interface(name)
    }

    /// Sends a device-owned property.  The value is validated against the
    /// resolved mapping and persisted; if it equals the value already
    /// stored under the same major version nothing is emitted, otherwise
    /// a frame is recorded when connected.  A disconnected publish is
    /// persisted only: the value is re-emitted by the resync on connect.
    #[verifier::rlimit(30)]
    pub fn send_property(
        &mut self,
        interface_name: &str,
        path: &MappingPath,
        data: AstarteData,
    ) -> (r: Result<(), Error>)
        requires
            old(self).wf(),
        ensures
            final(self).wf(),
            final(self).spec_interfaces() == old(self).spec_interfaces(),
            final(self).spec_status() == old(self).spec_status(),
            final(self).spec_realm() == old(self).spec_realm(),
            final(self).spec_device_id() == old(self).spec_device_id(),
            r is Ok <==> send_allowed(
                old(self).spec_interfaces(),
                interface_name@,
                path@,
                data@,
            ),
            r is Err ==> final(self).spec_store() == old(self).spec_store() && final(self).spec_frames() == old(self).spec_frames(),
            r matches Err(Error::Validation(ValidationError::InterfaceNotFound { name })) ==> name@
                == interface_name@,
            (r matches Err(Error::Validation(ValidationError::InterfaceNotFound { .. })))
                <==> find_interface(old(self).spec_interfaces(), interface_name@) is None,
            (r matches Err(Error::Validation(ValidationError::Ownership))) <==> (find_interface(
                old(self).spec_interfaces(),
                interface_name@,
            ) matches Some(iv) && !(iv.ownership is Device)),
            (r matches Err(Error::Validation(ValidationError::NotProperties))) <==> (
            find_interface(old(self).spec_interfaces(), interface_name@) matches Some(iv)
                && iv.ownership is Device && !(iv.data is Properties)),
            r matches Err(Error::Validation(ValidationError::MappingNotFound { interface, path: p }))
                ==> interface@ == interface_name@ && p@ == path.str_view(),
            (r matches Err(Error::Validation(ValidationError::MappingNotFound { .. }))) <==> (
            find_interface(old(self).spec_interfaces(), interface_name@) matches Some(iv)
                && iv.ownership is Device && iv.data is Properties && !resolves_property(
                iv,
                path@,
            )),
            (r matches Err(Error::Validation(ValidationError::MappingType))) <==> (find_interface(
                old(self).spec_interfaces(),
                interface_name@,
            ) matches Some(iv) && iv.ownership is Device && resolves_property(iv, path@)
                && !resolves_property_typed(iv, path@, data@)),
            (r matches Err(Error::Validation(ValidationError::NotFinite))) <==> (find_interface(
                old(self).spec_interfaces(),
                interface_name@,
            ) matches Some(iv) && iv.ownership is Device && resolves_property_typed(
                iv,
                path@,
                data@,
            ) && !data_valid(data@)),
            r is Ok ==> {
                let iv = find_interface(old(self).spec_interfaces(), interface_name@)->Some_0;
                let major = iv.version_major;
                if dedup_hit(
                    old(self).spec_store(),
                    interface_name@,
                    path.str_view(),
                    major,
                    data@,
                ) {
                    // Duplicate: nothing stored again, nothing emitted.
                    final(self).spec_store() == old(self).spec_store() && final(self).spec_frames()
                        == old(self).spec_frames()
                } else {
                    // Persisted before emitted; emitted only when connected.
                    &&& find_entry(final(self).spec_store(), interface_name@, path.str_view())
                        == Some(
                        PropEntryView {
                            interface: interface_name@,
                            path: path.str_view(),
                            value: Some(data@),
                            interface_major: major,
                            ownership: Ownership::Device,
                        },
                    )
                    &&& forall|i2: Seq<char>, p2: Seq<char>|
                        !(i2 == interface_name@ && p2 == path.str_view()) ==> #[trigger] find_entry(
                            final(self).spec_store(),
                            i2,
                            p2,
                        ) == find_entry(old(self).spec_store(), i2, p2)
                    &&& (old(self).spec_status() is Connected ==> final(self).spec_frames() == old(self).spec_frames().push(
                        FrameView::SendProperty {
                            interface: interface_name@,
                            path: path.str_view(),
                            value: data@,
                        },
                    ))
                    &&& (!(old(self).spec_status() is Connected) ==> final(self).spec_frames()
                        == old(self).spec_frames())
                }
            },
    {
        let interface = match self.interfaces.get_interface(interface_name) {
            Some(i) => i,
            None => {
                return Err(
                    Error::Validation(
                        ValidationError::InterfaceNotFound { name: interface_name.to_owned() },
                    ),
                );
            },
        };
        proof {
            lemma_find_interface_wf(self.spec_interfaces(), interface_name@);
        }
        if !interface.ownership().is_device() {
            return Err(Error::Validation(ValidationError::Ownership));
        }
        let mapping_type = match interface.property_mapping(path) {
            Some(m) => m.mapping_type(),
            None => {
                if !matches!(interface.interface_type(), crate::schema::InterfaceType::Properties) {
                    return Err(Error::Validation(ValidationError::NotProperties));
                }
                return Err(
                    Error::Validation(
                        ValidationError::MappingNotFound {
                            interface: interface_name.to_owned(),
                            path: path.as_str().to_owned(),
                        },
                    ),
                );
            },
        };
        let major = interface.version_major();
        if data.mapping_type() != mapping_type {
            assert(!send_allowed(self.spec_interfaces(), interface_name@, path@, data@));
            return Err(Error::Validation(ValidationError::MappingType));
        }
        if !data.is_valid() {
            return Err(Error::Validation(ValidationError::NotFinite));
        }
        assert(send_allowed(self.spec_interfaces(), interface_name@, path@, data@));
        // Deduplicate against the stored value; a stale or mismatched row
        // is dropped by the load.
        let ghost store0 = self.store@;
        let stored = self.store.load_prop(interface_name, path.as_str(), major);
        let ghost store1 = self.store@;
        if let Some(v) = stored {
            if v.eq(&data) {
                return Ok(());
            }
        }
        self.store.store_prop(
            StoredProp {
                interface: interface_name.to_owned(),
                path: path.as_str().to_owned(),
                value: clone_data(&data),
                interface_major: major,
                ownership: Ownership::Device,
            },
        );
        proof {
            assert forall|i2: Seq<char>, p2: Seq<char>|
                !(i2 == interface_name@ && p2 == path.str_view()) implies #[trigger] find_entry(
                self.store@,
                i2,
                p2,
            ) == find_entry(store0, i2, p2) by {
                assert(find_entry(self.store@, i2, p2) == find_entry(store1, i2, p2));
                assert(find_entry(store1, i2, p2) == find_entry(store0, i2, p2));
            }
        }
        if matches!(self.status, ConnectionStatus::Connected) {
            let ghost before = self.frames.deep_view();
            self.frames.push(
                Frame::SendProperty {
                    interface: interface_name.to_owned(),
                    path: path.as_str().to_owned(),
                    value: data,
                },
            );
            assert(self.frames.deep_view() =~= before.push(
                FrameView::SendProperty {
                    interface: interface_name@,
                    path: path.str_view(),
                    value: data@,
                },
            ));
        }
        Ok(())
    }

    /// Unsets a device-owned property.  The unset marker is persisted;
    /// when connected the unset frame is recorded and the row is then
    /// hard-deleted, so a later load returns nothing either way.
    #[verifier::rlimit(30)]
    pub fn unset_prop(&mut self, interface_name: &str, path: &MappingPath) -> (r: Result<
        (),
        Error,
    >)
        requires
            old(self).wf(),
        ensures
            final(self).wf(),
            final(self).spec_interfaces() == old(self).spec_interfaces(),
            final(self).spec_status() == old(self).spec_status(),
            final(self).spec_realm() == old(self).spec_realm(),
            final(self).spec_device_id() == old(self).spec_device_id(),
            r is Ok <==> unset_allowed(old(self).spec_interfaces(), interface_name@, path@),
            r is Err ==> final(self).spec_store() == old(self).spec_store() && final(self).spec_frames() == old(self).spec_frames(),
            r matches Err(Error::Validation(ValidationError::InterfaceNotFound { name })) ==> name@
                == interface_name@,
            (r matches Err(Error::Validation(ValidationError::InterfaceNotFound { .. })))
                <==> find_interface(old(self).spec_interfaces(), interface_name@) is None,
            (r matches Err(Error::Validation(ValidationError::Ownership))) <==> (find_interface(
                old(self).spec_interfaces(),
                interface_name@,
            ) matches Some(iv) && !(iv.ownership is Device)),
            (r matches Err(Error::Validation(ValidationError::NotProperties))) <==> (
            find_interface(old(self).spec_interfaces(), interface_name@) matches Some(iv)
                && iv.ownership is Device && !(iv.data is Properties)),
            r matches Err(Error::Validation(ValidationError::MappingNotFound { interface, path: p }))
                ==> interface@ == interface_name@ && p@ == path.str_view(),
            (r matches Err(Error::Validation(ValidationError::MappingNotFound { .. }))) <==> (
            find_interface(old(self).spec_interfaces(), interface_name@) matches Some(iv)
                && iv.ownership is Device && iv.data is Properties && !resolves_property(
                iv,
                path@,
            )),
            (r matches Err(Error::Validation(ValidationError::UnsetNotAllowed))) <==> (
            find_interface(old(self).spec_interfaces(), interface_name@) matches Some(iv)
                && iv.ownership is Device && resolves_property(iv, path@)
                && !resolves_property_unsettable(iv, path@)),
            r is Ok ==> {
                &&& (old(self).spec_status() is Connected ==> {
                    // Exactly one unset frame, and the row is gone.
                    &&& final(self).spec_frames() == old(self).spec_frames().push(
                        FrameView::UnsetProperty {
                            interface: interface_name@,
                            path: path.str_view(),
                        },
                    )
                    &&& find_entry(final(self).spec_store(), interface_name@, path.str_view())
                         is None
                })
                &&& (!(old(self).spec_status() is Connected) ==> {
                    // Disconnected: only the marker is persisted.
                    &&& final(self).spec_frames() == old(self).spec_frames()
                    &&& match find_entry(
                        old(self).spec_store(),
                        interface_name@,
                        path.str_view(),
                    ) {
                        Option::Some(e) => find_entry(
                            final(self).spec_store(),
                            interface_name@,
                            path.str_view(),
                        ) == Some(
                            PropEntryView {
                                interface: e.interface,
                                path: e.path,
                                value: None,
                                interface_major: e.interface_major,
                                ownership: e.ownership,
                            },
                        ),
                        Option::None => find_entry(
                            final(self).spec_store(),
                            interface_name@,
                            path.str_view(),
                        ) is None,
                    }
                })
                &&& forall|i2: Seq<char>, p2: Seq<char>|
                    !(i2 == interface_name@ && p2 == path.str_view()) ==> #[trigger] find_entry(
                        final(self).spec_store(),
                        i2,
                        p2,
                    ) == find_entry(old(self).spec_store(), i2, p2)
            },
    {
        let interface = match self.interfaces.get_interface(interface_name) {
            Some(i) => i,
            None => {
                return Err(
                    Error::Validation(
                        ValidationError::InterfaceNotFound { name: interface_name.to_owned() },
                    ),
                );
            },
        };
        proof {
            lemma_find_interface_wf(self.spec_interfaces(), interface_name@);
        }
        if !interface.ownership().is_device() {
            return Err(Error::Validation(ValidationError::Ownership));
        }
        let allow_unset = match interface.property_mapping(path) {
            Some(m) => m.allow_unset(),
            None => {
                if !matches!(interface.interface_type(), crate::schema::InterfaceType::Properties) {
                    return Err(Error::Validation(ValidationError::NotProperties));
                }
                return Err(
                    Error::Validation(
                        ValidationError::MappingNotFound {
                            interface: interface_name.to_owned(),
                            path: path.as_str().to_owned(),
                        },
                    ),
                );
            },
        };
        if !allow_unset {
            assert(!unset_allowed(self.spec_interfaces(), interface_name@, path@));
            return Err(Error::Validation(ValidationError::UnsetNotAllowed));
        }
        assert(unset_allowed(self.spec_interfaces(), interface_name@, path@));
        // Persisted before emitted before deleted.
        let ghost store0 = self.store@;
        self.store.unset_prop(interface_name, path.as_str());
        let ghost store1 = self.store@;
        if matches!(self.status, ConnectionStatus::Connected) {
            let ghost before = self.frames.deep_view();
            self.frames.push(
                Frame::UnsetProperty {
                    interface: interface_name.to_owned(),
                    path: path.as_str().to_owned(),
                },
            );
            assert(self.frames.deep_view() =~= before.push(
                FrameView::UnsetProperty { interface: interface_name@, path: path.str_view() },
            ));
            self.store.delete_prop(interface_name, path.as_str());
            proof {
                assert forall|i2: Seq<char>, p2: Seq<char>|
                    !(i2 == interface_name@ && p2 == path.str_view()) implies #[trigger] find_entry(
                    self.store@,
                    i2,
                    p2,
                ) == find_entry(store0, i2, p2) by {
                    assert(find_entry(self.store@, i2, p2) == find_entry(store1, i2, p2));
                    assert(find_entry(store1, i2, p2) == find_entry(store0, i2, p2));
                }
            }
        }
        Ok(())
    }

    /// Loads the stored value of a device-owned property, dropping a row
    /// whose major version or type no longer agrees with the live
    /// mapping.
    pub fn try_load_prop(&mut self, interface_name: &str, path: &MappingPath) -> (r: Result<
        Option<AstarteData>,
        Error,
    >)
        requires
            old(self).wf(),
        ensures
            final(self).wf(),
            final(self).spec_interfaces() == old(self).spec_interfaces(),
            final(self).spec_status() == old(self).spec_status(),
            final(self).spec_frames() == old(self).spec_frames(),
            final(self).spec_realm() == old(self).spec_realm(),
            final(self).spec_device_id() == old(self).spec_device_id(),
            r is Err ==> final(self).spec_store() == old(self).spec_store(),
            r is Ok <==> (find_interface(old(self).spec_interfaces(), interface_name@) matches Some(
                iv,
            ) && resolves_property(iv, path@)),
            r matches Err(Error::Validation(ValidationError::InterfaceNotFound { name })) ==> name@
                == interface_name@,
            (r matches Err(Error::Validation(ValidationError::InterfaceNotFound { .. })))
                <==> find_interface(old(self).spec_interfaces(), interface_name@) is None,
            (r matches Err(Error::Validation(ValidationError::NotProperties))) <==> (
            find_interface(old(self).spec_interfaces(), interface_name@) matches Some(iv) && !(
            iv.data is Properties)),
            r matches Err(Error::Validation(ValidationError::MappingNotFound { interface, path: p }))
                ==> interface@ == interface_name@ && p@ == path.str_view(),
            (r matches Err(Error::Validation(ValidationError::MappingNotFound { .. }))) <==> (
            find_interface(old(self).spec_interfaces(), interface_name@) matches Some(iv)
                && iv.data is Properties && !resolves_property(iv, path@)),
            r matches Ok(v) ==> {
                let iv = find_interface(old(self).spec_interfaces(), interface_name@)->Some_0;
                match find_entry(old(self).spec_store(), interface_name@, path.str_view()) {
                    Option::Some(e) => {
                        if e.interface_major == iv.version_major {
                            match e.value {
                                Option::Some(stored) => {
                                    if spec_data_mapping_type(stored) == spec_mapping_type_at(
                                        iv,
                                        path@,
                                    ) {
                                        v matches Some(rv) && rv@ == stored && final(self).spec_store() == old(self).spec_store()
                                    } else {
                                        // A stale row of another type is
                                        // dropped.
                                        v is None && find_entry(
                                            final(self).spec_store(),
                                            interface_name@,
                                            path.str_view(),
                                        ) is None
                                    }
                                },
                                Option::None => v is None && final(self).spec_store() == old(self).spec_store(),
                            }
                        } else {
                            // A row recorded under another major version
                            // is dropped.
                            v is None && find_entry(
                                final(self).spec_store(),
                                interface_name@,
                                path.str_view(),
                            ) is None
                        }
                    },
                    Option::None => v is None && final(self).spec_store() == old(self).spec_store(),
                }
            },
            forall|i2: Seq<char>, p2: Seq<char>|
                !(i2 == interface_name@ && p2 == path.str_view()) ==> #[trigger] find_entry(
                    final(self).spec_store(),
                    i2,
                    p2,
                ) == find_entry(old(self).spec_store(), i2, p2),
    {
        let interface = match self.interfaces.get_interface(interface_name) {
            Some(i) => i,
            None => {
                return Err(
                    Error::Validation(
                        ValidationError::InterfaceNotFound { name: interface_name.to_owned() },
                    ),
                );
            },
        };
        proof {
            lemma_find_interface_wf(self.spec_interfaces(), interface_name@);
        }
        let mapping_type = match interface.property_mapping(path) {
            Some(m) => m.mapping_type(),
            None => {
                if !matches!(interface.interface_type(), crate::schema::InterfaceType::Properties) {
                    return Err(Error::Validation(ValidationError::NotProperties));
                }
                return Err(
                    Error::Validation(
                        ValidationError::MappingNotFound {
                            interface: interface_name.to_owned(),
                            path: path.as_str().to_owned(),
                        },
                    ),
                );
            },
        };
        let major = interface.version_major();
        let ghost store0 = self.store@;
        let value = self.store.load_prop(interface_name, path.as_str(), major);
        let ghost store1 = self.store@;
        match value {
            Some(v) => {
                if v.mapping_type() != mapping_type {
                    // Stored under an older definition of the mapping:
                    // drop the stale row and treat it as absent.
                    self.store.delete_prop(interface_name, path.as_str());
                    proof {
                        assert forall|i2: Seq<char>, p2: Seq<char>|
                            !(i2 == interface_name@ && p2 == path.str_view()) implies
                            #[trigger] find_entry(self.store@, i2, p2) == find_entry(
                            store0,
                            i2,
                            p2,
                        ) by {
                            assert(find_entry(self.store@, i2, p2) == find_entry(store1, i2, p2));
                            assert(find_entry(store1, i2, p2) == find_entry(store0, i2, p2));
                        }
                    }
                    Ok(None)
                } else {
                    Ok(Some(v))
                }
            },
            None => Ok(None),
        }
    }
}

/// The subscription topics of the server-owned interfaces, in registry
/// order.
pub open spec fn server_topics(
    realm: Seq<char>,
    device_id: Seq<char>,
    s: Seq<InterfaceView>,
) -> Seq<Seq<char>>
    decreases s.len(),
{
    if s.len() == 0 {
        Seq::empty()
    } else {
        let rest = server_topics(realm, device_id, s.drop_first());
        if s[0].ownership is Server {
            seq![interface_topic_chars(realm, device_id, s[0].name)] + rest
        } else {
            rest
        }
    }
}

/// The resync frames of the stored device-owned properties: one property
/// publish per stored value, in store order.
pub open spec fn resync_frames(props: Seq<crate::store::StoredPropView>) -> Seq<FrameView> {
    props.map_values(
        |p: crate::store::StoredPropView|
            FrameView::SendProperty { interface: p.interface, path: p.path, value: p.value },
    )
}

/// The frames that a connection records: one batched subscribe for the
/// server-owned interfaces if there are any, the canonical introspection
/// string, then the device-owned property resync.
pub open spec fn connect_frames(
    realm: Seq<char>,
    device_id: Seq<char>,
    interfaces: Seq<InterfaceView>,
    store: Seq<PropEntryView>,
) -> Seq<FrameView> {
    let topics = server_topics(realm, device_id, interfaces);
    let subscribe: Seq<FrameView> = if topics.len() > 0 {
        seq![FrameView::SubscribeMany { topics }]
    } else {
        Seq::empty()
    };
    subscribe + seq![
        FrameView::Publish {
            topic: base_topic_chars(realm, device_id),
            payload: intro_chars(interfaces),
        },
    ] + resync_frames(crate::store::props_of(store, Ownership::Device))
}

impl DeviceClient {
    /// Marks the connection as established and records the synchronizer
    /// frames: the batched subscription to the server-owned interfaces,
    /// the canonical introspection string of the registered interfaces,
    /// and the replay of every stored device-owned property.
    #[verifier::loop_isolation(false)]
    #[verifier::rlimit(30)]
    pub fn connect(&mut self)
        requires
            old(self).wf(),
        ensures
            final(self).wf(),
            final(self).spec_status() == ConnectionStatus::Connected,
            final(self).spec_interfaces() == old(self).spec_interfaces(),
            final(self).spec_store() == old(self).spec_store(),
            final(self).spec_realm() == old(self).spec_realm(),
            final(self).spec_device_id() == old(self).spec_device_id(),
            final(self).spec_frames() == old(self).spec_frames() + connect_frames(
                old(self).spec_realm(),
                old(self).spec_device_id(),
                old(self).spec_interfaces(),
                old(self).spec_store(),
            ),
    {
        self.status = ConnectionStatus::Connected;
        let ghost frames0 = self.frames.deep_view();
        let ghost reg = self.interfaces@;
        let topics = collect_server_topics(
            &self.interfaces,
            self.realm.as_str(),
            self.device_id.as_str(),
            0,
        );
        assert(reg.skip(0) =~= reg);
        let ghost topicsv = topics.deep_view();
        if topics.len() > 0 {
            self.frames.push(Frame::SubscribeMany { topics });
            assert(self.frames.deep_view() =~= frames0.push(
                FrameView::SubscribeMany { topics: topicsv },
            ));
        }
        let ghost frames1 = self.frames.deep_view();
        let intro = self.interfaces.introspection();
        let base = make_base_topic(self.realm.as_str(), self.device_id.as_str());
        self.frames.push(Frame::Publish { topic: base, payload: intro });
        assert(self.frames.deep_view() =~= frames1.push(
            FrameView::Publish {
                topic: base_topic_chars(self.realm@, self.device_id@),
                payload: intro_chars(reg),
            },
        ));
        let ghost frames2 = self.frames.deep_view();
        let props = self.store.device_props();
        let ghost propsv = props.deep_view();
        let n = props.len();
        let mut k: usize = 0;
        while k < n
            invariant
                k <= n,
                n == props.len(),
                props.deep_view() == propsv,
                self.frames.deep_view() =~= frames2 + resync_frames(propsv.take(k as int)),
                self.wf(),
                self.spec_status() == ConnectionStatus::Connected,
                self.spec_interfaces() == old(self).spec_interfaces(),
                self.spec_store() == old(self).spec_store(),
                self.spec_realm() == old(self).spec_realm(),
                self.spec_device_id() == old(self).spec_device_id(),
            decreases n - k,
        {
            let ghost before = self.frames.deep_view();
            self.frames.push(
                Frame::SendProperty {
                    interface: props[k].interface.clone(),
                    path: props[k].path.clone(),
                    value: clone_data(&props[k].value),
                },
            );
            proof {
                assert(self.frames.deep_view() =~= before.push(
                    FrameView::SendProperty {
                        interface: propsv[k as int].interface,
                        path: propsv[k as int].path,
                        value: propsv[k as int].value,
                    },
                ));
                assert(resync_frames(propsv.take(k + 1)) =~= resync_frames(
                    propsv.take(k as int),
                ).push(
                    FrameView::SendProperty {
                        interface: propsv[k as int].interface,
                        path: propsv[k as int].path,
                        value: propsv[k as int].value,
                    },
                ));
            }
            k += 1;
        }
        proof {
            assert(propsv.take(n as int) =~= propsv);
            assert(self.frames.deep_view() =~= frames0 + connect_frames(
                self.realm@,
                self.device_id@,
                reg,
                self.store@,
            ));
        }
    }

    /// Marks the connection as lost; nothing else changes.
    pub fn disconnect(&mut self)
        ensures
            final(self).spec_status() == ConnectionStatus::Disconnected,
            final(self).spec_interfaces() == old(self).spec_interfaces(),
            final(self).spec_store() == old(self).spec_store(),
            final(self).spec_frames() == old(self).spec_frames(),
            final(self).spec_realm() == old(self).spec_realm(),
            final(self).spec_device_id() == old(self).spec_device_id(),
            old(self).wf() ==> final(self).wf(),
    {
        self.status = ConnectionStatus::Disconnected;
    }

    /// Adds an interface to the introspection: registers it, and on
    /// success subscribes to it when it is server-owned and new, then
    /// publishes the new canonical introspection string.  Returns whether
    /// the introspection changed.
    #[verifier::rlimit(30)]
    pub fn add_interface(&mut self, interface: Interface) -> (r: Result<bool, Error>)
        requires
            old(self).wf(),
            interface@.wf(),
        ensures
            final(self).wf(),
            final(self).spec_store() == old(self).spec_store(),
            final(self).spec_status() == old(self).spec_status(),
            final(self).spec_realm() == old(self).spec_realm(),
            final(self).spec_device_id() == old(self).spec_device_id(),
            forall|n2: Seq<char>|
                n2 != interface@.name ==> #[trigger] find_interface(
                    final(self).spec_interfaces(),
                    n2,
                ) == find_interface(old(self).spec_interfaces(), n2),
            final(self).spec_interfaces() == spec_registry_add(
                old(self).spec_interfaces(),
                interface@,
            ),
            match spec_add_result(old(self).spec_interfaces(), interface@) {
                Ok(AddResult::Added) => {
                    &&& r == Ok::<bool, Error>(true)
                    &&& find_interface(final(self).spec_interfaces(), interface@.name) == Some(
                        interface@,
                    )
                    &&& final(self).spec_frames() == old(self).spec_frames() + (
                    if interface@.ownership is Server {
                        seq![
                            FrameView::Subscribe {
                                topic: interface_topic_chars(
                                    old(self).spec_realm(),
                                    old(self).spec_device_id(),
                                    interface@.name,
                                ),
                            },
                        ]
                    } else {
                        Seq::empty()
                    }) + seq![
                        FrameView::Publish {
                            topic: base_topic_chars(
                                old(self).spec_realm(),
                                old(self).spec_device_id(),
                            ),
                            payload: intro_chars(final(self).spec_interfaces()),
                        },
                    ]
                },
                Ok(AddResult::Replaced) => {
                    &&& r == Ok::<bool, Error>(true)
                    &&& find_interface(final(self).spec_interfaces(), interface@.name) == Some(
                        interface@,
                    )
                    &&& final(self).spec_frames() == old(self).spec_frames() + seq![
                        FrameView::Publish {
                            topic: base_topic_chars(
                                old(self).spec_realm(),
                                old(self).spec_device_id(),
                            ),
                            payload: intro_chars(final(self).spec_interfaces()),
                        },
                    ]
                },
                Ok(AddResult::Unchanged) => {
                    &&& r == Ok::<bool, Error>(false)
                    &&& final(self).spec_interfaces() == old(self).spec_interfaces()
                    &&& final(self).spec_frames() == old(self).spec_frames()
                },
                Err(e) => {
                    &&& r matches Err(Error::Registry(e2)) && e2 == e
                    &&& final(self).spec_interfaces() == old(self).spec_interfaces()
                    &&& final(self).spec_frames() == old(self).spec_frames()
                },
            },
    {
        let name = interface.interface_name().to_owned();
        let server = interface.ownership().is_server();
        let ghost frames0 = self.frames.deep_view();
        match self.interfaces.add(interface) {
            Ok(AddResult::Added) => {
                if server {
                    let topic = make_interface_topic(
                        self.realm.as_str(),
                        self.device_id.as_str(),
                        name.as_str(),
                    );
                    self.frames.push(Frame::Subscribe { topic });
                    assert(self.frames.deep_view() =~= frames0 + seq![
                        FrameView::Subscribe {
                            topic: interface_topic_chars(self.realm@, self.device_id@, name@),
                        },
                    ]);
                }
                let ghost frames1 = self.frames.deep_view();
                let intro = self.interfaces.introspection();
                let base = make_base_topic(self.realm.as_str(), self.device_id.as_str());
                self.frames.push(Frame::Publish { topic: base, payload: intro });
                assert(self.frames.deep_view() =~= frames1.push(
                    FrameView::Publish {
                        topic: base_topic_chars(self.realm@, self.device_id@),
                        payload: intro_chars(self.interfaces@),
                    },
                ));
                Ok(true)
            },
            Ok(AddResult::Replaced) => {
                let intro = self.interfaces.introspection();
                let base = make_base_topic(self.realm.as_str(), self.device_id.as_str());
                self.frames.push(Frame::Publish { topic: base, payload: intro });
                assert(self.frames.deep_view() =~= frames0.push(
                    FrameView::Publish {
                        topic: base_topic_chars(self.realm@, self.device_id@),
                        payload: intro_chars(self.interfaces@),
                    },
                ));
                Ok(true)
            },
            Ok(AddResult::Unchanged) => Ok(false),
            Err(e) => Err(Error::Registry(e)),
        }
    }

    /// Removes an interface from the introspection: unregisters it, and
    /// if one was registered publishes the new canonical introspection
    /// string and then unsubscribes when it was server-owned.  Returns
    /// whether the introspection changed.
    #[verifier::rlimit(30)]
    pub fn remove_interface(&mut self, name: &str) -> (r: Result<bool, Error>)
        requires
            old(self).wf(),
        ensures
            final(self).wf(),
            final(self).spec_store() == old(self).spec_store(),
            final(self).spec_status() == old(self).spec_status(),
            final(self).spec_realm() == old(self).spec_realm(),
            final(self).spec_device_id() == old(self).spec_device_id(),
            forall|n2: Seq<char>|
                n2 != name@ ==> #[trigger] find_interface(final(self).spec_interfaces(), n2)
                    == find_interface(old(self).spec_interfaces(), n2),
            final(self).spec_interfaces() == remove_name(old(self).spec_interfaces(), name@),
            match find_interface(old(self).spec_interfaces(), name@) {
                Option::Some(o) => {
                    &&& r == Ok::<bool, Error>(true)
                    &&& find_interface(final(self).spec_interfaces(), name@) is None
                    &&& final(self).spec_frames() == old(self).spec_frames() + seq![
                        FrameView::Publish {
                            topic: base_topic_chars(
                                old(self).spec_realm(),
                                old(self).spec_device_id(),
                            ),
                            payload: intro_chars(final(self).spec_interfaces()),
                        },
                    ] + (if o.ownership is Server {
                        seq![
                            FrameView::Unsubscribe {
                                topic: interface_topic_chars(
                                    old(self).spec_realm(),
                                    old(self).spec_device_id(),
                                    name@,
                                ),
                            },
                        ]
                    } else {
                        Seq::empty()
                    })
                },
                Option::None => {
                    &&& r == Ok::<bool, Error>(false)
                    &&& final(self).spec_interfaces() == old(self).spec_interfaces()
                    &&& final(self).spec_frames() == old(self).spec_frames()
                },
            },
    {
        let server = match self.interfaces.get_interface(name) {
            Some(i) => i.ownership().is_server(),
            None => {
                proof {
                    crate::interfaces::lemma_find_none_remove_name(self.spec_interfaces(), name@);
                }
                return Ok(false);
            },
        };
        let ghost frames0 = self.frames.deep_view();
        self.interfaces.remove(name);
        let intro = self.interfaces.introspection();
        let base = make_base_topic(self.realm.as_str(), self.device_id.as_str());
        self.frames.push(Frame::Publish { topic: base, payload: intro });
        assert(self.frames.deep_view() =~= frames0 + seq![
            FrameView::Publish {
                topic: base_topic_chars(self.realm@, self.device_id@),
                payload: intro_chars(self.interfaces@),
            },
        ]);
        if server {
            let ghost frames1 = self.frames.deep_view();
            let topic = make_interface_topic(self.realm.as_str(), self.device_id.as_str(), name);
            self.frames.push(Frame::Unsubscribe { topic });
            assert(self.frames.deep_view() =~= frames1.push(
                FrameView::Unsubscribe {
                    topic: interface_topic_chars(self.realm@, self.device_id@, name@),
                },
            ));
        }
        Ok(true)
    }

    /// Adds several interfaces to the introspection, each as
    /// [`add_interface`](Self::add_interface) would; stops at the first
    /// one the registry refuses.  Returns the names of the interfaces
    /// that changed the introspection.
    #[verifier::loop_isolation(false)]
    pub fn extend_interfaces_vec(&mut self, interfaces: Vec<Interface>) -> (r: Result<
        Vec<String>,
        Error,
    >)
        requires
            old(self).wf(),
            forall|k: int|
                0 <= k < interfaces.len() ==> (#[trigger] interfaces.deep_view()[k]).wf(),
        ensures
            final(self).wf(),
            final(self).spec_store() == old(self).spec_store(),
            final(self).spec_status() == old(self).spec_status(),
            final(self).spec_realm() == old(self).spec_realm(),
            final(self).spec_device_id() == old(self).spec_device_id(),
            ({
                let o = extend_outcome(
                    old(self).spec_realm(),
                    old(self).spec_device_id(),
                    old(self).spec_interfaces(),
                    interfaces.deep_view(),
                    0,
                );
                &&& (r is Ok <==> o.ok)
                &&& final(self).spec_interfaces() == o.interfaces
                &&& final(self).spec_frames() == old(self).spec_frames() + o.frames
                &&& (r matches Ok(added) ==> added.deep_view() == o.names)
                &&& (r is Err ==> r matches Err(Error::Registry(_)))
            }),
            r is Ok ==> forall|k: int|
                0 <= k < interfaces.len() ==> find_interface(
                    final(self).spec_interfaces(),
                    (#[trigger] interfaces.deep_view()[k]).name,
                ) is Some,
    {
        let ghost all = interfaces.deep_view();
        let ghost r0 = self.spec_realm();
        let ghost d0 = self.spec_device_id();
        let ghost reg0 = self.spec_interfaces();
        let ghost frames0 = self.spec_frames();
        let mut remaining = interfaces;
        let mut added: Vec<String> = Vec::new();
        let mut k: usize = 0;
        let n = remaining.len();
        while remaining.len() > 0
            invariant
                remaining.deep_view() =~= all.skip(k as int),
                k + remaining.len() == n,
                n == all.len(),
                self.wf(),
                self.spec_store() == old(self).spec_store(),
                self.spec_status() == old(self).spec_status(),
                self.spec_realm() == r0,
                self.spec_device_id() == d0,
                forall|l: int|
                    0 <= l < k ==> find_interface(
                        self.spec_interfaces(),
                        (#[trigger] all[l]).name,
                    ) is Some,
                extend_outcome(r0, d0, reg0, all, 0).ok == extend_outcome(
                    r0,
                    d0,
                    self.spec_interfaces(),
                    all,
                    k as int,
                ).ok,
                extend_outcome(r0, d0, reg0, all, 0).interfaces == extend_outcome(
                    r0,
                    d0,
                    self.spec_interfaces(),
                    all,
                    k as int,
                ).interfaces,
                frames0 + extend_outcome(r0, d0, reg0, all, 0).frames == self.spec_frames()
                    + extend_outcome(r0, d0, self.spec_interfaces(), all, k as int).frames,
                added.deep_view() + extend_outcome(
                    r0,
                    d0,
                    self.spec_interfaces(),
                    all,
                    k as int,
                ).names == extend_outcome(r0, d0, reg0, all, 0).names,
            decreases remaining.len(),
        {
            let ghost pre = remaining.deep_view();
            let ghost cur = self.spec_interfaces();
            let ghost framesk = self.spec_frames();
            let interface = remaining.remove(0);
            proof {
                assert(pre[0] == all[k as int]);
                assert(interface.deep_view() == pre[0]);
                assert(remaining.deep_view() =~= pre.drop_first());
                assert(pre.drop_first() =~= all.skip(k + 1));
            }
            let name = interface.interface_name().to_owned();
            let ghost addedk = added.deep_view();
            match self.add_interface(interface) {
                Ok(true) => {
                    added.push(name);
                    assert(added.deep_view() =~= addedk.push(all[k as int].name));
                },
                Ok(false) => {},
                Err(e) => {
                    proof {
                        assert(extend_outcome(r0, d0, cur, all, k as int) == ExtendOutcome {
                            ok: false,
                            interfaces: cur,
                            frames: Seq::<FrameView>::empty(),
                            names: Seq::<Seq<char>>::empty(),
                        });
                        assert(self.spec_frames() =~= framesk + Seq::<FrameView>::empty());
                        assert(frames0 + extend_outcome(r0, d0, reg0, all, 0).frames
                            =~= self.spec_frames());
                    }
                    return Err(e);
                },
            }
            proof {
                assert(find_interface(self.spec_interfaces(), all[k as int].name) is Some);
                let step = spec_add_result(cur, all[k as int]);
                let next = spec_registry_add(cur, all[k as int]);
                assert(self.spec_interfaces() == next);
                let rest = extend_outcome(r0, d0, next, all, k + 1);
                assert(extend_outcome(r0, d0, cur, all, k as int) == ExtendOutcome {
                    ok: rest.ok,
                    interfaces: rest.interfaces,
                    frames: add_frames(r0, d0, cur, all[k as int]) + rest.frames,
                    names: (if step->Ok_0 is Unchanged {
                        Seq::<Seq<char>>::empty()
                    } else {
                        seq![all[k as int].name]
                    }) + rest.names,
                });
                assert(self.spec_frames() =~= framesk + add_frames(r0, d0, cur, all[k as int]));
                assert(frames0 + extend_outcome(r0, d0, reg0, all, 0).frames =~= self.spec_frames()
                    + rest.frames);
                assert(added.deep_view() + rest.names =~= extend_outcome(
                    r0,
                    d0,
                    reg0,
                    all,
                    0,
                ).names);
            }
            k += 1;
        }
        proof {
            assert(extend_outcome(r0, d0, self.spec_interfaces(), all, n as int)
                == ExtendOutcome {
                ok: true,
                interfaces: self.spec_interfaces(),
                frames: Seq::<FrameView>::empty(),
                names: Seq::<Seq<char>>::empty(),
            });
            assert(self.spec_frames() =~= frames0 + extend_outcome(r0, d0, reg0, all, 0).frames);
            assert(added.deep_view() =~= extend_outcome(r0, d0, reg0, all, 0).names);
        }
        Ok(added)
    }

    /// Removes several interfaces from the introspection, each as
    /// [`remove_interface`](Self::remove_interface) would.  Returns the
    /// names of the interfaces that were registered and are now removed.
    #[verifier::loop_isolation(false)]
    pub fn remove_interfaces_vec(&mut self, interfaces_name: Vec<String>) -> (r: Result<
        Vec<String>,
        Error,
    >)
        requires
            old(self).wf(),
        ensures
            final(self).wf(),
            final(self).spec_store() == old(self).spec_store(),
            final(self).spec_status() == old(self).spec_status(),
            final(self).spec_realm() == old(self).spec_realm(),
            final(self).spec_device_id() == old(self).spec_device_id(),
            r is Ok,
            ({
                let o = remove_outcome(
                    old(self).spec_realm(),
                    old(self).spec_device_id(),
                    old(self).spec_interfaces(),
                    interfaces_name.deep_view(),
                    0,
                );
                &&& final(self).spec_interfaces() == o.interfaces
                &&& final(self).spec_frames() == old(self).spec_frames() + o.frames
                &&& (r matches Ok(removed) ==> removed.deep_view() == o.names)
            }),
            forall|k: int|
                0 <= k < interfaces_name.len() ==> find_interface(
                    final(self).spec_interfaces(),
                    (#[trigger] interfaces_name.deep_view()[k]),
                ) is None,
    {
        let ghost namesv = interfaces_name.deep_view();
        let ghost r0 = self.spec_realm();
        let ghost d0 = self.spec_device_id();
        let ghost reg0 = self.spec_interfaces();
        let ghost frames0 = self.spec_frames();
        let mut removed: Vec<String> = Vec::new();
        let mut k: usize = 0;
        let n = interfaces_name.len();
        while k < n
            invariant
                k <= n,
                n == namesv.len(),
                self.wf(),
                self.spec_store() == old(self).spec_store(),
                self.spec_status() == old(self).spec_status(),
                self.spec_realm() == r0,
                self.spec_device_id() == d0,
                forall|l: int|
                    0 <= l < k ==> find_interface(
                        self.spec_interfaces(),
                        (#[trigger] namesv[l]),
                    ) is None,
                remove_outcome(r0, d0, reg0, namesv, 0).interfaces == remove_outcome(
                    r0,
                    d0,
                    self.spec_interfaces(),
                    namesv,
                    k as int,
                ).interfaces,
                frames0 + remove_outcome(r0, d0, reg0, namesv, 0).frames == self.spec_frames()
                    + remove_outcome(r0, d0, self.spec_interfaces(), namesv, k as int).frames,
                removed.deep_view() + remove_outcome(
                    r0,
                    d0,
                    self.spec_interfaces(),
                    namesv,
                    k as int,
                ).names == remove_outcome(r0, d0, reg0, namesv, 0).names,
            decreases n - k,
        {
            let ghost cur = self.spec_interfaces();
            let ghost framesk = self.spec_frames();
            let ghost removedk = removed.deep_view();
            proof {
                assert(interfaces_name@[k as int]@ == namesv[k as int]);
            }
            match self.remove_interface(interfaces_name[k].as_str()) {
                Ok(true) => {
                    removed.push(interfaces_name[k].clone());
                    assert(removed.deep_view() =~= removedk.push(namesv[k as int]));
                },
                _ => {},
            }
            proof {
                let rest = remove_outcome(
                    r0,
                    d0,
                    self.spec_interfaces(),
                    namesv,
                    k + 1,
                );
                match find_interface(cur, namesv[k as int]) {
                    Option::Some(o) => {
                        let s2 = crate::interfaces::remove_name(cur, namesv[k as int]);
                        assert(self.spec_interfaces() == s2);
                        assert(remove_outcome(r0, d0, cur, namesv, k as int) == RemoveOutcome {
                            interfaces: rest.interfaces,
                            frames: seq![
                                FrameView::Publish {
                                    topic: base_topic_chars(r0, d0),
                                    payload: intro_chars(s2),
                                },
                            ] + (if o.ownership is Server {
                                seq![
                                    FrameView::Unsubscribe {
                                        topic: interface_topic_chars(r0, d0, namesv[k as int]),
                                    },
                                ]
                            } else {
                                Seq::<FrameView>::empty()
                            }) + rest.frames,
                            names: seq![namesv[k as int]] + rest.names,
                        });
                        assert(self.spec_frames() =~= framesk + (seq![
                            FrameView::Publish {
                                topic: base_topic_chars(r0, d0),
                                payload: intro_chars(s2),
                            },
                        ] + (if o.ownership is Server {
                            seq![
                                FrameView::Unsubscribe {
                                    topic: interface_topic_chars(r0, d0, namesv[k as int]),
                                },
                            ]
                        } else {
                            Seq::<FrameView>::empty()
                        })));
                    },
                    Option::None => {
                        assert(remove_outcome(r0, d0, cur, namesv, k as int) == rest);
                        assert(self.spec_frames() == framesk);
                    },
                }
                assert(frames0 + remove_outcome(r0, d0, reg0, namesv, 0).frames
                    =~= self.spec_frames() + rest.frames);
                assert(removed.deep_view() + rest.names =~= remove_outcome(
                    r0,
                    d0,
                    reg0,
                    namesv,
                    0,
                ).names);
            }
            k += 1;
        }
        proof {
            assert(remove_outcome(r0, d0, self.spec_interfaces(), namesv, n as int)
                == RemoveOutcome {
                interfaces: self.spec_interfaces(),
                frames: Seq::<FrameView>::empty(),
                names: Seq::<Seq<char>>::empty(),
            });
            assert(self.spec_frames() =~= frames0 + remove_outcome(r0, d0, reg0, namesv, 0).frames);
            assert(removed.deep_view() =~= remove_outcome(r0, d0, reg0, namesv, 0).names);
        }
        Ok(removed)
    }
}

/// The subscription topics of the server-owned interfaces from index `k`
/// on.
#[verifier::loop_isolation(false)]
fn collect_server_topics(interfaces: &Interfaces, realm: &str, device_id: &str, k: usize) -> (r:
    Vec<String>)
    requires
        k <= interfaces@.len(),
    ensures
        r.deep_view() == server_topics(realm@, device_id@, interfaces@.skip(k as int)),
    decreases interfaces@.len() - k,
{
    let ghost suffix = interfaces@.skip(k as int);
    if k == interfaces.len() {
        let r: Vec<String> = Vec::new();
        assert(suffix.len() == 0);
        assert(r.deep_view() =~= server_topics(realm@, device_id@, suffix));
        return r;
    }
    let mut rest = collect_server_topics(interfaces, realm, device_id, k + 1);
    proof {
        assert(suffix[0] == interfaces@[k as int]);
        assert(suffix.drop_first() =~= interfaces@.skip(k + 1));
    }
    let i = interfaces.at(k);
    if i.ownership().is_server() {
        let topic = make_interface_topic(realm, device_id, i.interface_name());
        let ghost tv = topic@;
        let ghost restv = rest.deep_view();
        rest.insert(0, topic);
        assert(rest.deep_view() =~= seq![tv] + restv);
        assert(rest.deep_view() =~= server_topics(realm@, device_id@, suffix));
    }
    rest
}

/// The base topic of the device: `realm/device_id`.
fn make_base_topic(realm: &str, device_id: &str) -> (r: String)
    ensures
        r@ == base_topic_chars(realm@, device_id@),
{
    let mut s = realm.to_owned();
    s.append("/");
    s.append(device_id);
    proof {
        reveal_strlit("/");
        assert(s@ =~= base_topic_chars(realm@, device_id@));
    }
    s
}

/// The subscription topic of a server-owned interface:
/// `realm/device_id/<name>/#`.
fn make_interface_topic(realm: &str, device_id: &str, name: &str) -> (r: String)
    ensures
        r@ == interface_topic_chars(realm@, device_id@, name@),
{
    let mut s = make_base_topic(realm, device_id);
    s.append("/");
    s.append(name);
    s.append("/#");
    proof {
        reveal_strlit("/");
        reveal_strlit("/#");
        assert(s@ =~= interface_topic_chars(realm@, device_id@, name@));
    }
    s
}

/// The mapping type of the properties mapping of `iv` that matches the
/// path; meaningful when exactly one does.
pub open spec fn spec_mapping_type_at(iv: InterfaceView, path: Seq<Seq<char>>) -> crate::schema::MappingType {
    match iv.data {
        InterfaceDataView::Properties { mappings } => {
            let k = choose|k: int|
                0 <= k < mappings.len() && matches_path((#[trigger] mappings[k]).endpoint, path);
            mappings[k].mapping_type
        },
        _ => crate::schema::MappingType::Double,
    }
}

} // verus!
