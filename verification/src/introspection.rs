//! Handling of the device introspection: errors when loading interface
//! definitions, and the traits through which a client queries and mutates
//! the advertised interfaces.

use vstd::prelude::*;

use crate::client::DeviceClient;
use crate::error::Error;
use crate::interface::Interface;
use crate::interface::InterfaceError;
use crate::interface::InterfaceView;
use crate::interfaces::AddResult;
use crate::interfaces::RegistryError;
use crate::interfaces::find_interface;
use crate::interfaces::remove_name;
use crate::interfaces::spec_add_result;
use crate::interfaces::spec_registry_add;

verus! {

/// Error while adding an interface to the device introspection.
#[derive(Debug)]
pub enum AddInterfaceError {
    /// The interface definition was invalid.
    Interface(InterfaceError),
    /// The interface file could not be read; carries the path and the
    /// I/O error message.
    Io {
        /// The path of the interface file that could not be read.
        path: String,
        /// The I/O error message.
        backtrace: String,
    },
    /// The interface file held an invalid definition.
    InterfaceFile {
        /// The path of the invalid interface file.
        path: String,
        /// Why the interface could not be added.
        backtrace: InterfaceError,
    },
}

impl AddInterfaceError {
    /// Attaches a file path to the error: a bare definition error becomes
    /// a file error, and an error that already carries a path has it
    /// replaced.
    pub fn add_path_context(self, path: String) -> (r: Self)
        ensures
            r == (match self {
                AddInterfaceError::Interface(backtrace) => AddInterfaceError::InterfaceFile {
                    path,
                    backtrace,
                },
                AddInterfaceError::Io { path: prev, backtrace } => AddInterfaceError::Io {
                    path,
                    backtrace,
                },
                AddInterfaceError::InterfaceFile { path: prev, backtrace } => {
                    AddInterfaceError::InterfaceFile { path, backtrace }
                },
            }),
    {
        match self {
            AddInterfaceError::Interface(backtrace) => AddInterfaceError::InterfaceFile {
                path,
                backtrace,
            },
            AddInterfaceError::Io { path: _prev, backtrace } => AddInterfaceError::Io {
                path,
                backtrace,
            },
            AddInterfaceError::InterfaceFile { path: _prev, backtrace } => {
                AddInterfaceError::InterfaceFile { path, backtrace }
            },
        }
    }
}

/// Lets a client query the interfaces in the device introspection.
pub trait DeviceIntrospection {
    /// The invariant under which the introspection can be queried.
    spec fn queryable(&self) -> bool;

    /// The interfaces of the introspection, in name order.
    spec fn registered(&self) -> Seq<InterfaceView>;

    /// Returns a reference to the interface with the given name.
    fn get_interface(&self, interface_name: &str) -> (r: Option<&Interface>)
        requires
            self.queryable(),
        ensures
            match r {
                Option::Some(i) => find_interface(self.registered(), interface_name@) == Some(i@),
                Option::None => find_interface(self.registered(), interface_name@) is None,
            },
    ;
}

impl DeviceIntrospection for DeviceClient {
    open spec fn queryable(&self) -> bool {
        self.wf()
    }

    open spec fn registered(&self) -> Seq<InterfaceView> {
        self.spec_interfaces()
    }

    fn get_interface(&self, interface_name: &str) -> (r: Option<&Interface>) {
        DeviceClient::get_interface(self, interface_name)
    }
}

/// Lets a client add and remove interfaces dynamically.  The effect on
/// the registered set and the meaning of each result are part of the
/// trait; what the synchronizer sends alongside a mutation is specified
/// on the implementor, which records it as frames.
pub trait DynamicIntrospection {
    /// The invariant the implementor maintains across mutations.
    spec fn introspection_wf(&self) -> bool;

    /// The interfaces of the introspection, in name order.
    spec fn registered(&self) -> Seq<InterfaceView>;

    /// Adds an interface to the device introspection; returns whether it
    /// changed the introspection or the same version was already present.
    fn add_interface(&mut self, interface: Interface) -> (r: Result<bool, Error>)
        requires
            old(self).introspection_wf(),
            interface@.wf(),
        ensures
            final(self).introspection_wf(),
            final(self).registered() == spec_registry_add(old(self).registered(), interface@),
            r is Ok <==> spec_add_result(old(self).registered(), interface@) is Ok,
            r matches Ok(b) ==> b == !(spec_add_result(old(self).registered(), interface@)
                == Ok::<AddResult, RegistryError>(AddResult::Unchanged)),
    ;

    /// Adds several interfaces to the device introspection; returns the
    /// names of those that changed it.
    fn extend_interfaces_vec(&mut self, interfaces: Vec<Interface>) -> (r: Result<
        Vec<String>,
        Error,
    >)
        requires
            old(self).introspection_wf(),
            forall|k: int|
                0 <= k < interfaces.len() ==> (#[trigger] interfaces.deep_view()[k]).wf(),
        ensures
            final(self).introspection_wf(),
            r is Ok ==> forall|k: int|
                0 <= k < interfaces.len() ==> find_interface(
                    final(self).registered(),
                    (#[trigger] interfaces.deep_view()[k]).name,
                ) is Some,
    ;

    /// Removes the interface with the given name; returns whether one was
    /// removed.
    fn remove_interface(&mut self, interface_name: &str) -> (r: Result<bool, Error>)
        requires
            old(self).introspection_wf(),
        ensures
            final(self).introspection_wf(),
            final(self).registered() == remove_name(old(self).registered(), interface_name@),
            r matches Ok(b) ==> b == (find_interface(
                old(self).registered(),
                interface_name@,
            ) is Some),
    ;

    /// Removes the interfaces with the given names; returns the names of
    /// those that were removed.
    fn remove_interfaces_vec(&mut self, interfaces_name: Vec<String>) -> (r: Result<
        Vec<String>,
        Error,
    >)
        requires
            old(self).introspection_wf(),
        ensures
            final(self).introspection_wf(),
            r is Ok,
            forall|k: int|
                0 <= k < interfaces_name.len() ==> find_interface(
                    final(self).registered(),
                    (#[trigger] interfaces_name.deep_view()[k]),
                ) is None,
    ;
}

impl DynamicIntrospection for DeviceClient {
    open spec fn introspection_wf(&self) -> bool {
        self.wf()
    }

    open spec fn registered(&self) -> Seq<InterfaceView> {
        self.spec_interfaces()
    }

    fn add_interface(&mut self, interface: Interface) -> (r: Result<bool, Error>) {
        DeviceClient::add_interface(self, interface)
    }

    fn extend_interfaces_vec(&mut self, interfaces: Vec<Interface>) -> (r: Result<
        Vec<String>,
        Error,
    >) {
        DeviceClient::extend_interfaces_vec(self, interfaces)
    }

    fn remove_interface(&mut self, interface_name: &str) -> (r: Result<bool, Error>) {
        DeviceClient::remove_interface(self, interface_name)
    }

    fn remove_interfaces_vec(&mut self, interfaces_name: Vec<String>) -> (r: Result<
        Vec<String>,
        Error,
    >) {
        DeviceClient::remove_interfaces_vec(self, interfaces_name)
    }
}

} // verus!
