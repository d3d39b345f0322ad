//! Data structures shared with the host: the red-black tree behind the
//! host's maps, the C-layout vector, the host string, and the records
//! stored in host tables.

pub mod cvec;
pub mod estring;
pub mod loadout;
pub mod plane;
pub mod tll;
