//! The gun-sector patch: on the 1.151 host, six bytes of sector-blocking
//! logic are replaced with NOPs. Later hosts ship without the block, so
//! nothing is patched there.

use vstd::prelude::*;

use crate::HostVersion;
use crate::patchy::HostRegion;
use crate::patchy::Patch;

verus! {

/// Address of the sector-blocking instructions on the 1.151 host.
pub open spec fn sector_blocking_address() -> u64 {
    0x14003314d
}

/// NOP out the sector-blocking check on a 1.151 host; do nothing on a
/// 1.163 host, whose gun arcs are already free.
pub fn patch_sector_blocking(region: &mut HostRegion, v: HostVersion) -> (p: Option<Patch>)
    requires
        v == HostVersion::V1_151 ==> old(region).holds(sector_blocking_address(), 6),
    ensures
        v == HostVersion::V1_163 ==> p is None && *final(region) == *old(region),
        v == HostVersion::V1_151 ==> match p {
            Some(q) => {
                &&& final(region).base == old(region).base
                &&& final(region).bytes@.len() == old(region).bytes@.len()
                &&& final(region).window(sector_blocking_address(), 6) == seq![
                    0x90u8,
                    0x90u8,
                    0x90u8,
                    0x90u8,
                    0x90u8,
                    0x90u8,
                ]
                &&& (forall|j: int|
                    0 <= j < final(region).bytes@.len() && !(sector_blocking_address()
                        - old(region).base <= j < sector_blocking_address() - old(region).base
                        + 6) ==> final(region).bytes@[j] == old(region).bytes@[j])
                &&& q.size == 6
                &&& q.overwritten@ == old(region).window(sector_blocking_address(), 6)
                &&& q.trampoline is None
            },
            None => false,
        },
{
    match v {
        HostVersion::V1_163 => Option::None,
        HostVersion::V1_151 => {
            let data = vec![0x90u8, 0x90, 0x90, 0x90, 0x90, 0x90];
            let p = Patch::overwrite(region, 0x14003314d, &data);
            proof {
                assert(data@ =~= seq![0x90u8, 0x90u8, 0x90u8, 0x90u8, 0x90u8, 0x90u8]);
            }
            Option::Some(p)
        },
    }
}

} // verus!
