//! Error kinds of the build-time and runtime halves of the crate.

use vstd::prelude::*;

verus! {

/// Failure of [`crate::Config::add_symbol_group`].
#[derive(Clone, Copy, PartialEq, Eq, Debug)]
pub enum ConfigError {
    /// The group name was already registered.
    DuplicateGroup,
    /// A stub with the same export name exists, but with a different
    /// `import_name` or `is_data` value.
    IncompatibleRedefinition,
}

/// Failure of inspecting a binary artifact.
#[derive(Debug)]
pub enum InspectError {
    /// Unrecognized or malformed container, with a diagnostic message.
    Format(String),
    /// A recognized container that the operation does not support, with a
    /// diagnostic message.
    Unsupported(String),
}

/// The mathematical value of [`InspectError`].
pub enum InspectErrorV {
    Format(Seq<char>),
    Unsupported(Seq<char>),
}

impl View for InspectError {
    type V = InspectErrorV;

    open spec fn view(&self) -> InspectErrorV {
        match self {
            InspectError::Format(s) => InspectErrorV::Format(s@),
            InspectError::Unsupported(s) => InspectErrorV::Unsupported(s@),
        }
    }
}

/// Failure of the runtime resolution engine.
#[derive(Debug)]
pub enum LinkError {
    /// An attempt to load an already-loaded library.
    AlreadyLoaded,
    /// The platform loader rejected every candidate dylib name.
    LibraryNotFound,
    /// The platform lookup returned null for the named symbol.
    SymbolMissing(String),
    /// At least one symbol of the named group could not be resolved.
    GroupResolutionFailed(String),
}

/// The mathematical value of [`LinkError`].
pub enum LinkErrorV {
    AlreadyLoaded,
    LibraryNotFound,
    SymbolMissing(Seq<char>),
    GroupResolutionFailed(Seq<char>),
}

impl View for LinkError {
    type V = LinkErrorV;

    open spec fn view(&self) -> LinkErrorV {
        match self {
            LinkError::AlreadyLoaded => LinkErrorV::AlreadyLoaded,
            LinkError::LibraryNotFound => LinkErrorV::LibraryNotFound,
            LinkError::SymbolMissing(s) => LinkErrorV::SymbolMissing(s@),
            LinkError::GroupResolutionFailed(s) => LinkErrorV::GroupResolutionFailed(s@),
        }
    }
}

/// Failure of source generation: the target triple is not in the
/// supported set.
#[derive(Clone, Copy, PartialEq, Eq, Debug)]
pub enum GenError {
    /// The architecture prefix of the target triple is not recognized.
    UnsupportedArch,
    /// The OS part of the target triple is not recognized.
    UnsupportedOs,
}

} // verus!
