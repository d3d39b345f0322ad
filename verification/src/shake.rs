//! The camera-shake patch: a four-byte overwrite that plants the bit
//! pattern of the value one over the host's shake factor.

use vstd::prelude::*;

use crate::HostVersion;
use crate::patchy::HostRegion;
use crate::patchy::Patch;

verus! {

/// Address of the shake factor for each supported host build.
pub fn shake_address(v: HostVersion) -> (r: u64)
    ensures
        v == HostVersion::V1_151 ==> r == 0x1403285e0,
        v == HostVersion::V1_163 ==> r == 0x140354758,
{
    match v {
        HostVersion::V1_151 => 0x1403285e0,
        HostVersion::V1_163 => 0x140354758,
    }
}

/// The four bytes written over the shake factor: the IEEE-754 encoding of
/// the value one, given here as its literal bytes.
pub open spec fn shake_bytes() -> Seq<u8> {
    seq![0x00u8, 0x00u8, 0x80u8, 0x3fu8]
}

/// Overwrite the host's shake factor with the value one, retaining the old
/// bytes in the returned patch.
pub fn patch_shake(region: &mut HostRegion, v: HostVersion) -> (p: Patch)
    requires
        old(region).holds(shake_address_spec(v), 4),
    ensures
        final(region).base == old(region).base,
        final(region).bytes@.len() == old(region).bytes@.len(),
        final(region).window(shake_address_spec(v), 4) == shake_bytes(),
        forall|j: int|
            0 <= j < final(region).bytes@.len() && !(shake_address_spec(v) - old(region).base <= j
                < shake_address_spec(v) - old(region).base + 4) ==> final(region).bytes@[j]
                == old(region).bytes@[j],
        p.size == 4,
        p.overwritten@ == old(region).window(shake_address_spec(v), 4),
        p.trampoline is None,
{
    let address = shake_address(v);
    let data = vec![0x00u8, 0x00, 0x80, 0x3f];
    proof {
        assert(data@ =~= shake_bytes());
    }
    Patch::overwrite(region, address, &data)
}

/// The shake factor address, at the specification level.
pub open spec fn shake_address_spec(v: HostVersion) -> u64 {
    match v {
        HostVersion::V1_151 => 0x1403285e0,
        HostVersion::V1_163 => 0x140354758,
    }
}

} // verus!
