//! Plain value types shared with the platform loader: the opaque library
//! handle and the address word.  The loader calls themselves (`dlopen`,
//! `dlsym` and their Windows counterparts) live outside the library; its
//! runtime model takes their outcomes as arguments.

use vstd::prelude::*;

verus! {

/// Represents an address in memory.
pub type Address = usize;

/// Represents a handle to a dynamic library.  Zero is reserved for "not
/// loaded".
#[derive(Copy, Clone, PartialEq, Eq, Structural, Debug)]
pub struct DylibHandle(pub usize);

} // verus!
