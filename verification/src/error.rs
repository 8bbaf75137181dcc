//! The error taxonomy of the crate.

use vstd::prelude::*;

use crate::interface::InterfaceError;
use crate::interfaces::RegistryError;
use crate::types::TypeError;

verus! {

/// Error when validating a publish against the resolved mapping.
#[derive(Debug)]
pub enum ValidationError {
    /// No interface with the name is registered.
    InterfaceNotFound {
        /// The name that was looked up.
        name: String,
    },
    /// No mapping of the interface matches the path.
    MappingNotFound {
        /// The interface that was searched.
        interface: String,
        /// The path that did not resolve.
        path: String,
    },
    /// The interface is not a properties interface.
    NotProperties,
    /// The device cannot publish on a server-owned interface.
    Ownership,
    /// The value kind does not equal the mapping type.
    MappingType,
    /// The value holds a double that is not finite.
    NotFinite,
    /// The mapping does not allow unsetting.
    UnsetNotAllowed,
}

impl Clone for ValidationError {
    fn clone(&self) -> (r: Self)
        ensures
            r == self,
    {
        match self {
            ValidationError::InterfaceNotFound { name } => ValidationError::InterfaceNotFound {
                name: name.clone(),
            },
            ValidationError::MappingNotFound { interface, path } => {
                ValidationError::MappingNotFound {
                    interface: interface.clone(),
                    path: path.clone(),
                }
            },
            ValidationError::NotProperties => ValidationError::NotProperties,
            ValidationError::Ownership => ValidationError::Ownership,
            ValidationError::MappingType => ValidationError::MappingType,
            ValidationError::NotFinite => ValidationError::NotFinite,
            ValidationError::UnsetNotAllowed => ValidationError::UnsetNotAllowed,
        }
    }
}

/// The root error of the crate.
#[derive(Debug)]
pub enum Error {
    /// An interface definition was invalid.
    Interface(InterfaceError),
    /// The registry refused a replacement.
    Registry(RegistryError),
    /// A publish failed validation.
    Validation(ValidationError),
    /// A value conversion failed.
    Type(TypeError),
}

} // verus!
