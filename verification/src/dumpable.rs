//! The anti-wobble patch: redirect the host's crash-dump-flag write
//! through a trampoline that calls an injected routine clearing the flag.

use vstd::prelude::*;

use crate::HostVersion;
use crate::patchy::HostRegion;
use crate::patchy::Patch;
use crate::patchy::PatchError;
use crate::patchy::ReturnType;
use crate::patchy::displacement;
use crate::patchy::disp_fits;
use crate::patchy::jump_bytes;
use crate::patchy::trampoline_bytes;
use crate::patchy::trampoline_head;

verus! {

/// Patch site of the crash-dump flag write for each supported host build.
pub open spec fn dumpable_address(v: HostVersion) -> u64 {
    match v {
        HostVersion::V1_151 => 0x1400240c0,
        HostVersion::V1_163 => 0x1400256e0,
    }
}

/// Executable form of [`dumpable_address`].
pub fn dumpable_address_of(v: HostVersion) -> (r: u64)
    ensures
        r == dumpable_address(v),
{
    match v {
        HostVersion::V1_151 => 0x1400240c0,
        HostVersion::V1_163 => 0x1400256e0,
    }
}

/// Install the anti-wobble call patch: six bytes at the site become a jump
/// into the cave plus a NOP, and the trampoline preserves the overwritten
/// bytes, saves every volatile register (the routine returns nothing, so
/// both return channels are bracketed), calls the injected routine at
/// `set_dumpable`, and jumps back behind the site. Fails exactly when one
/// of the two relative jumps cannot reach.
pub fn dumpable(region: &mut HostRegion, v: HostVersion, set_dumpable: u64, cave_base: u64) -> (r:
    Result<Patch, PatchError>)
    requires
        old(region).holds(dumpable_address(v), 6),
        cave_base + 300 <= u64::MAX,
    ensures
        ({
            let site = dumpable_address(v);
            let head = trampoline_head(
                old(region).window(site, 6),
                true,
                ReturnType::Nothing,
                set_dumpable,
            );
            let fwd = displacement(site, cave_base);
            let back = displacement((cave_base + head.len()) as u64, (site + 6) as u64);
            &&& (r is Ok <==> disp_fits(fwd) && disp_fits(back))
            &&& match r {
                Result::Ok(p) => {
                    &&& p.size == 6
                    &&& p.overwritten@ == old(region).window(site, 6)
                    &&& final(region).base == old(region).base
                    &&& final(region).bytes@.len() == old(region).bytes@.len()
                    &&& final(region).window(site, 5) == jump_bytes(fwd)
                    &&& final(region).window(site, 6)[5] == 0x90u8
                    &&& (forall|j: int|
                        0 <= j < final(region).bytes@.len() && !(site - old(region).base <= j
                            < site - old(region).base + 6) ==> final(region).bytes@[j] == old(
                            region,
                        ).bytes@[j])
                    &&& p.trampoline matches Option::Some(t) && t.base == cave_base && t.bytes@
                        == trampoline_bytes(
                        old(region).window(site, 6),
                        true,
                        ReturnType::Nothing,
                        set_dumpable,
                        back,
                    )
                },
                Result::Err(e) => e == PatchError::DisplacementOverflow && *final(region)
                    == *old(region),
            }
        }),
{
    let address = dumpable_address_of(v);
    Patch::patch_call(region, address, set_dumpable, 6, true, ReturnType::Nothing, cave_base)
}

} // verus!
