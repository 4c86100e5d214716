//! The wrapper's configuration: a list of deny-rule strings. Loading the
//! settings file and decoding its JSON happen outside the library; the
//! values arrive here as plain strings.

use vstd::prelude::*;

verus! {

/// The deny list of the settings file.
pub struct Permissions {
    pub deny: Vec<String>,
}

/// The settings the wrapper runs under.
pub struct Settings {
    pub permissions: Permissions,
}

} // verus!
