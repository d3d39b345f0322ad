//! In-process binary patching engine for a native x86-64 host application,
//! with a host-compatible red-black tree for mutating the host's own maps.
//!
//! The crate models host memory and host data structures as plain values:
//! node addresses become indices, code pages become byte vectors. All of the
//! engine's logic — trampoline layout, jump displacement encoding, red-black
//! insertion with the sentinel-based `std::map` layout — is verified here.
//! The thin platform layer (page protection, real allocation, file I/O)
//! lives outside the library and hands it plain values.

pub mod patchy;
pub mod structs;

pub mod config;
pub mod dumpable;
pub mod guns;
pub mod plane;
pub mod shake;
pub mod zoom;

use vstd::prelude::*;

use vstd::string::StringSliceAdditionalSpecFns;

use crate::config::Config;

verus! {

/// The host builds this engine knows the address tables for.
#[derive(PartialEq, Eq, Structural, Clone, Copy, Debug)]
pub enum HostVersion {
    /// The Steam 1.151 build.
    V1_151,
    /// The Steam 1.163 build.
    V1_163,
}

/// Byte-wise equality of two strings.
fn str_bytes_eq(a: &str, b: &str) -> (r: bool)
    ensures
        r == (a.spec_bytes() == b.spec_bytes()),
{
    let ab = a.as_bytes();
    let bb = b.as_bytes();
    if ab.len() != bb.len() {
        proof {
            assert(a.spec_bytes().len() != b.spec_bytes().len());
        }
        return false;
    }
    let mut i: usize = 0;
    while i < ab.len()
        invariant
            i <= ab@.len(),
            ab@ == a.spec_bytes(),
            bb@ == b.spec_bytes(),
            ab@.len() == bb@.len(),
            forall|j: int| 0 <= j < i ==> ab@[j] == bb@[j],
        decreases ab@.len() - i,
    {
        if ab[i] != bb[i] {
            return false;
        }
        i = i + 1;
    }
    proof {
        assert(a.spec_bytes() =~= b.spec_bytes());
    }
    true
}

/// The build string each supported version answers to.
pub open spec fn expected_build(v: HostVersion) -> Seq<u8> {
    match v {
        HostVersion::V1_151 => "Steam 1.151".spec_bytes(),
        HostVersion::V1_163 => "Steam 1.163".spec_bytes(),
    }
}

/// The loader's version check: accept exactly the build string of the
/// version the engine was configured for. Anything else, the GOG build
/// included, is refused.
pub fn version(v: HostVersion, build: &str) -> (r: bool)
    ensures
        r == (build.spec_bytes() == expected_build(v)),
{
    match v {
        HostVersion::V1_151 => str_bytes_eq(build, "Steam 1.151"),
        HostVersion::V1_163 => str_bytes_eq(build, "Steam 1.163"),
    }
}

/// What initialisation will do for a given configuration: which features
/// are switched on, and which zoom-table warnings apply.
pub struct InitPlan {
    /// Install the crash-dump-flag patch.
    pub anti_wobble: bool,
    /// Install the zoom patches.
    pub arcade_zoom: bool,
    /// Install the sector-blocking NOP-out.
    pub unblocked_guns: bool,
    /// The zoom table is shorter than the host's stock five entries.
    pub warn_few_levels: bool,
    /// The configured maximum zoom points beyond the table.
    pub warn_short_table: bool,
}

/// Decide the initialisation steps from the configuration: each feature
/// follows its flag, and the zoom warnings fire exactly when the table is
/// shorter than the stock five entries, or shorter than the configured
/// maximum zoom level.
pub fn plan_init(c: &Config) -> (r: InitPlan)
    ensures
        r.anti_wobble == c.enable_anti_wobble,
        r.arcade_zoom == c.enable_arcade_zoom,
        r.unblocked_guns == c.enable_unblocked_guns,
        r.warn_few_levels == (c.enable_arcade_zoom && c.zoom_levels@.len() < 5),
        r.warn_short_table == (c.enable_arcade_zoom && c.zoom_levels@.len() < c.max_zoom_level
            as int),
{
    InitPlan {
        anti_wobble: c.enable_anti_wobble,
        arcade_zoom: c.enable_arcade_zoom,
        unblocked_guns: c.enable_unblocked_guns,
        warn_few_levels: c.enable_arcade_zoom && c.levels_below_stock(),
        warn_short_table: c.enable_arcade_zoom && c.levels_below_max(),
    }
}

} // verus!
