//! The arcade-zoom patches: one call patch replaces the host's zoom-bound
//! logic, another replaces its zoom-value lookup. The injected routines'
//! decisions are pure functions here; the platform layer wires them to the
//! registers and globals of the running host.

use vstd::prelude::*;

use crate::HostVersion;
use crate::patchy::HostRegion;
use crate::patchy::Patch;
use crate::patchy::PatchError;
use crate::patchy::ReturnType;
use crate::patchy::displacement;
use crate::patchy::disp_fits;
use crate::patchy::jump_bytes;
use crate::patchy::trampoline_bytes;
use crate::patchy::trampoline_head;

verus! {

/// Patch site of the zoom-bound logic.
pub open spec fn zoom_patch_address(v: HostVersion) -> u64 {
    match v {
        HostVersion::V1_151 => 0x1401adf72,
        HostVersion::V1_163 => 0x1402c31c9,
    }
}

/// How many bytes the zoom-bound patch overwrites.
pub open spec fn zoom_override_count(v: HostVersion) -> usize {
    match v {
        HostVersion::V1_151 => 20,
        HostVersion::V1_163 => 14,
    }
}

/// Patch site of the zoom-value lookup.
pub open spec fn zoom_level_patch_address(v: HostVersion) -> u64 {
    match v {
        HostVersion::V1_151 => 0x140249371,
        HostVersion::V1_163 => 0x14026b03f,
    }
}

/// Addresses of the host's minimum and maximum zoom bound variables.
pub fn zoom_bound_addresses(v: HostVersion) -> (r: (u64, u64))
    ensures
        v == HostVersion::V1_151 ==> r == (0x143942538u64, 0x140391160u64),
        v == HostVersion::V1_163 ==> r == (0x143a119a4u64, 0x1403c11d0u64),
{
    match v {
        HostVersion::V1_151 => (0x143942538, 0x140391160),
        HostVersion::V1_163 => (0x143a119a4, 0x1403c11d0),
    }
}

/// Address of the host's current zoom index.
pub fn zoom_level_address(v: HostVersion) -> (r: u64)
    ensures
        v == HostVersion::V1_151 ==> r == 0x14039115c,
        v == HostVersion::V1_163 ==> r == 0x1403c11cc,
{
    match v {
        HostVersion::V1_151 => 0x14039115c,
        HostVersion::V1_163 => 0x1403c11cc,
    }
}

/// Install the zoom-bound call patch. The injected routine returns nothing,
/// so the trampoline brackets both return channels around the call and
/// does not copy the overwritten site. Fails exactly when one of the two
/// relative jumps cannot reach.
pub fn patch_zoom(region: &mut HostRegion, v: HostVersion, set_zoom_level: u64, cave_base: u64) -> (
    r: Result<Patch, PatchError>)
    requires
        old(region).holds(zoom_patch_address(v), zoom_override_count(v) as int),
        cave_base + 300 <= u64::MAX,
    ensures
        ({
            let site = zoom_patch_address(v);
            let count = zoom_override_count(v);
            let head = trampoline_head(Seq::empty(), false, ReturnType::Nothing, set_zoom_level);
            let fwd = displacement(site, cave_base);
            let back = displacement((cave_base + head.len()) as u64, (site + count) as u64);
            &&& (r is Ok <==> disp_fits(fwd) && disp_fits(back))
            &&& match r {
                Result::Ok(p) => {
                    &&& p.size == count
                    &&& p.overwritten@ == old(region).window(site, count as int)
                    &&& final(region).base == old(region).base
                    &&& final(region).bytes@.len() == old(region).bytes@.len()
                    &&& final(region).window(site, 5) == jump_bytes(fwd)
                    &&& (forall|j: int|
                        5 <= j < count ==> final(region).window(site, count as int)[j] == 0x90u8)
                    &&& (forall|j: int|
                        0 <= j < final(region).bytes@.len() && !(site - old(region).base <= j
                            < site - old(region).base + count) ==> final(region).bytes@[j] == old(
                            region,
                        ).bytes@[j])
                    &&& p.trampoline matches Option::Some(t) && t.base == cave_base && t.bytes@
                        == trampoline_bytes(
                        Seq::empty(),
                        false,
                        ReturnType::Nothing,
                        set_zoom_level,
                        back,
                    )
                },
                Result::Err(e) => e == PatchError::DisplacementOverflow && *final(region)
                    == *old(region),
            }
        }),
{
    let (address, count) = match v {
        HostVersion::V1_151 => (0x1401adf72u64, 20usize),
        HostVersion::V1_163 => (0x1402c31c9u64, 14usize),
    };
    Patch::patch_call(region, address, set_zoom_level, count, false, ReturnType::Nothing, cave_base)
}

/// Install the zoom-value call patch. The injected routine returns its
/// value in XMM0, so the trampoline leaves the XMM0 save and restore out
/// of the stub and the float return survives into host code. Fails exactly
/// when one of the two relative jumps cannot reach.
pub fn patch_levels(region: &mut HostRegion, v: HostVersion, calc_zoom: u64, cave_base: u64) -> (r:
    Result<Patch, PatchError>)
    requires
        old(region).holds(zoom_level_patch_address(v), 5),
        cave_base + 300 <= u64::MAX,
    ensures
        ({
            let site = zoom_level_patch_address(v);
            let head = trampoline_head(Seq::empty(), false, ReturnType::Xmm0, calc_zoom);
            let fwd = displacement(site, cave_base);
            let back = displacement((cave_base + head.len()) as u64, (site + 5) as u64);
            &&& (r is Ok <==> disp_fits(fwd) && disp_fits(back))
            &&& match r {
                Result::Ok(p) => {
                    &&& p.size == 5
                    &&& p.overwritten@ == old(region).window(site, 5)
                    &&& final(region).base == old(region).base
                    &&& final(region).bytes@.len() == old(region).bytes@.len()
                    &&& final(region).window(site, 5) == jump_bytes(fwd)
                    &&& (forall|j: int|
                        0 <= j < final(region).bytes@.len() && !(site - old(region).base <= j
                            < site - old(region).base + 5) ==> final(region).bytes@[j] == old(
                            region,
                        ).bytes@[j])
                    &&& p.trampoline matches Option::Some(t) && t.base == cave_base && t.bytes@
                        == trampoline_bytes(Seq::empty(), false, ReturnType::Xmm0, calc_zoom, back)
                },
                Result::Err(e) => e == PatchError::DisplacementOverflow && *final(region)
                    == *old(region),
            }
        }),
{
    let address = match v {
        HostVersion::V1_151 => 0x140249371u64,
        HostVersion::V1_163 => 0x14026b03fu64,
    };
    Patch::patch_call(region, address, calc_zoom, 5, false, ReturnType::Xmm0, cave_base)
}

/// What the injected zoom-bound routine writes: the configured bounds into
/// the host's bound variables.
pub fn set_zoom_level(v: HostVersion, min_zoom: u32, max_zoom: u32) -> (r: ((u64, u32), (u64, u32)))
    ensures
        v == HostVersion::V1_151 ==> r == ((0x143942538u64, min_zoom), (0x140391160u64, max_zoom)),
        v == HostVersion::V1_163 ==> r == ((0x143a119a4u64, min_zoom), (0x1403c11d0u64, max_zoom)),
{
    let (min_addr, max_addr) = zoom_bound_addresses(v);
    ((min_addr, min_zoom), (max_addr, max_zoom))
}

/// What the injected zoom-value routine returns, in thousandths: nothing
/// when the host is not in arcade mode (the original routine must run
/// instead); the safe default of one when the index is out of the table;
/// the table entry otherwise. The out-of-table check includes the index
/// equal to the table length.
pub fn calc_zoom_value(is_in_arcade: bool, zoom_value: u32, levels: &Vec<u32>) -> (r: Option<u32>)
    ensures
        !is_in_arcade ==> r is None,
        is_in_arcade && zoom_value >= levels@.len() ==> r == Option::Some(1000u32),
        is_in_arcade && zoom_value < levels@.len() ==> r == Option::Some(
            levels@[zoom_value as int],
        ),
{
    if !is_in_arcade {
        Option::None
    } else if zoom_value as usize >= levels.len() {
        Option::Some(1000)
    } else {
        Option::Some(levels[zoom_value as usize])
    }
}

} // verus!
