//! The plane record stored in the host's plane table.

use vstd::prelude::*;

use crate::structs::cvec::CVec;

verus! {

/// A plane record: the list of loadouts the host lets it mount. The host
/// stores raw addresses of loadout records; here each entry is that address
/// as a plain number.
pub struct Plane {
    /// Addresses of the plane's loadout records in host memory.
    pub loadouts: CVec<u64>,
}

} // verus!
