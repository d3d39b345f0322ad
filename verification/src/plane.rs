//! Adding the custom loadouts and the custom plane to the host's tables.
//!
//! The host's loadout and plane tables are its own maps; the platform layer
//! adopts them as [`TllContainer`] values and hands them here. New loadout
//! records are inserted under fresh keys, a record for the new plane is
//! added, and the planes that may mount the new loadouts get the loadout
//! rows' addresses appended to their loadout lists; a row index stands for
//! the host address of that node.

use vstd::prelude::*;

use crate::HostVersion;
use crate::structs::cvec::CVec;
use crate::structs::estring::EscadraString;
use crate::structs::loadout::Loadout;
use crate::structs::plane::Plane;
use crate::structs::loadout::ItemMunition;
use crate::structs::tll::TllContainer;
use crate::structs::tll::kmap;
use crate::structs::tll::lemma_doms_eq;
use vstd::string::StringSliceAdditionalSpecFns;

verus! {

/// Addresses of the host's loadout and plane tables. The plane table of
/// newer builds may be published as zero while unconfirmed; a zero address
/// must never be patched, which [`usable_address`] enforces.
pub fn table_addresses(v: HostVersion) -> (r: (u64, u64))
    ensures
        v == HostVersion::V1_151 ==> r == (0x143944528u64, 0x143942740u64),
        v == HostVersion::V1_163 ==> r == (0x143a15a60u64, 0x143a13c50u64),
{
    match v {
        HostVersion::V1_151 => (0x143944528, 0x143942740),
        HostVersion::V1_163 => (0x143a15a60, 0x143a13c50),
    }
}

/// Refuse an absent (zero) table address.
pub fn usable_address(a: u64) -> (r: Option<u64>)
    ensures
        a == 0 ==> r is None,
        a != 0 ==> r == Option::Some(a),
{
    if a == 0 {
        Option::None
    } else {
        Option::Some(a)
    }
}

/// The fields of every loadout record this engine inserts: keyed by its
/// own name, derived from the generic 37 mm gun loadout, no munition
/// items, launch weight 9999, gun flag set.
pub open spec fn new_loadout_fields(l: Loadout, key: EscadraString) -> bool {
    &&& l.plane_loadout == key
    &&& l.generic_loadout == gun37_generic_key()
    &&& l.items.items@ == Seq::<ItemMunition>::empty()
    &&& l.items.cap == 0
    &&& l.launch_loadout_weight == 9999
    &&& l.has_gun37mm == true
}

/// May the engine append to this host-owned loadout list? The list must be
/// consistent (length within its reservation) and the doubled reservation
/// must still be addressable.
pub open spec fn list_appendable(c: crate::structs::cvec::CVec<u64>) -> bool {
    c.items@.len() <= c.cap && c.cap <= usize::MAX / 2
}

/// Insert the two custom loadouts into the loadout table and register them
/// with their planes: the new LA-29 gun loadout goes to the LA-29, and the
/// new MB-210 gun loadout to the freshly inserted MB-210 plane record,
/// each list entry being the row index that stands for the loadout node's
/// host address. Returns whether the LA-29 was found; the inserted records
/// stay either way, and every pre-existing entry keeps its value.
#[verifier::rlimit(100)]
pub fn patch_planes(
    loadouts: &mut TllContainer<EscadraString, Loadout>,
    planes: &mut TllContainer<EscadraString, Plane>,
) -> (r: bool)
    requires
        old(loadouts).struct_wf(),
        old(loadouts).bst_wf(),
        old(loadouts).color_wf(),
        old(planes).struct_wf(),
        old(planes).bst_wf(),
        old(planes).color_wf(),
    ensures
        final(loadouts).struct_wf() && final(loadouts).bst_wf() && final(loadouts).color_wf(),
        final(planes).struct_wf() && final(planes).bst_wf() && final(planes).color_wf(),
        final(loadouts)@.dom() == old(loadouts)@.dom().insert(la29_gun40_key()).insert(
            mb210_gun37_key(),
        ),
        final(planes)@.dom() == old(planes)@.dom().insert(mb210_craft_key()),
        r == old(planes)@.dom().contains(la29_craft_key()),
        new_loadout_fields(final(loadouts)@[la29_gun40_key()], la29_gun40_key()),
        new_loadout_fields(final(loadouts)@[mb210_gun37_key()], mb210_gun37_key()),
        forall|k: EscadraString|
            old(loadouts)@.dom().contains(k) && k != la29_gun40_key() && k != mb210_gun37_key()
                ==> final(loadouts)@[k] == old(loadouts)@[k],
        final(planes)@[mb210_craft_key()].loadouts.items@ == seq![
            kmap(final(loadouts).shape)[mb210_gun37_key()] as u64,
        ],
        final(planes)@[mb210_craft_key()].loadouts.cap == 1,
        r ==> ({
            let la29row = kmap(final(loadouts).shape)[la29_gun40_key()] as u64;
            let before = old(planes)@[la29_craft_key()].loadouts;
            let after = final(planes)@[la29_craft_key()].loadouts;
            &&& (list_appendable(before) ==> after.items@ == before.items@.push(la29row))
            &&& (!list_appendable(before) ==> after.items@ == before.items@)
        }),
        forall|k: EscadraString|
            old(planes)@.dom().contains(k) && k != mb210_craft_key() && k != la29_craft_key()
                ==> final(planes)@[k] == old(planes)@[k],
{
    proof {
        lemma_craft_keys_distinct();
    }
    let k1 = EscadraString::from("LOADOUT_LA29_GUN40");
    let k2 = EscadraString::from("LOADOUT_MB210_GUN37");
    let v1 = Loadout {
        plane_loadout: EscadraString::from("LOADOUT_LA29_GUN40"),
        generic_loadout: EscadraString::from("LOADOUT_GUN37"),
        items: CVec::empty(),
        launch_loadout_weight: 9999,
        has_gun37mm: true,
    };
    let ghost g1 = v1;
    loadouts.insert(k1, v1);
    let v2 = Loadout {
        plane_loadout: EscadraString::from("LOADOUT_MB210_GUN37"),
        generic_loadout: EscadraString::from("LOADOUT_GUN37"),
        items: CVec::empty(),
        launch_loadout_weight: 9999,
        has_gun37mm: true,
    };
    let ghost g2 = v2;
    loadouts.insert(k2, v2);
    proof {
        assert(loadouts@.dom() =~= old(loadouts)@.dom().insert(la29_gun40_key()).insert(
            mb210_gun37_key(),
        ));
        assert(g1.items.items@ =~= Seq::<ItemMunition>::empty());
        assert(g2.items.items@ =~= Seq::<ItemMunition>::empty());
        assert(new_loadout_fields(g1, la29_gun40_key()));
        assert(new_loadout_fields(g2, mb210_gun37_key()));
        lemma_doms_eq(loadouts.shape);
    }
    let i1 = loadouts.find_idx(&k1);
    let i2 = loadouts.find_idx(&k2);
    let craft_la29 = EscadraString::from("CRAFT_LA29");
    let found = planes.get(&craft_la29);
    let la29_new = match found {
        Option::Some(p) => {
            let mut items = copy_ids(&p.loadouts);
            // a host-owned list with an absurd reservation is left as it is
            if items.len() <= items.capacity() && items.capacity() <= usize::MAX / 2 {
                items.insert(i1 as u64);
            }
            Option::Some(Plane { loadouts: items })
        },
        Option::None => Option::None,
    };
    let craft_mb210 = EscadraString::from("CRAFT_MB210");
    let mut mb210_loadouts = CVec::empty();
    mb210_loadouts.insert(i2 as u64);
    proof {
        assert(mb210_loadouts.items@ =~= seq![i2 as u64]);
    }
    let v3 = Plane { loadouts: mb210_loadouts };
    let ghost g3 = v3;
    planes.insert(craft_mb210, v3);
    match la29_new {
        Option::Some(p) => {
            let ghost g4 = p;
            planes.insert(craft_la29, p);
            proof {
                assert(planes@.dom() =~= old(planes)@.dom().insert(mb210_craft_key()));
                assert(planes@[mb210_craft_key()] == g3);
            }
            true
        },
        Option::None => {
            proof {
                assert(planes@.dom() =~= old(planes)@.dom().insert(mb210_craft_key()));
            }
            false
        },
    }
}

/// What the engine knows of its own key strings: the four records go in
/// under distinct keys (the packed names differ in their leading words),
/// and every name fits the host string's 32 bytes.
proof fn lemma_craft_keys_distinct()
    ensures
        la29_craft_key() != mb210_craft_key(),
        la29_gun40_key() != mb210_gun37_key(),
        "CRAFT_LA29".spec_bytes().len() <= 32,
        "CRAFT_MB210".spec_bytes().len() <= 32,
        "LOADOUT_LA29_GUN40".spec_bytes().len() <= 32,
        "LOADOUT_MB210_GUN37".spec_bytes().len() <= 32,
        "LOADOUT_GUN37".spec_bytes().len() <= 32,
{
    reveal_strlit("CRAFT_LA29");
    reveal_strlit("CRAFT_MB210");
    reveal_strlit("LOADOUT_LA29_GUN40");
    reveal_strlit("LOADOUT_MB210_GUN37");
    reveal_strlit("LOADOUT_GUN37");
    vstd::string::is_ascii_spec_bytes("CRAFT_LA29");
    vstd::string::is_ascii_spec_bytes("CRAFT_MB210");
    vstd::string::is_ascii_spec_bytes("LOADOUT_LA29_GUN40");
    vstd::string::is_ascii_spec_bytes("LOADOUT_MB210_GUN37");
    vstd::string::is_ascii_spec_bytes("LOADOUT_GUN37");
    assert(la29_craft_key().w0 != mb210_craft_key().w0);
    assert(la29_gun40_key().w1 != mb210_gun37_key().w1);
}

/// Key of the new LA-29 gun loadout.
pub open spec fn la29_gun40_key() -> EscadraString {
    crate::structs::estring::packed("LOADOUT_LA29_GUN40".spec_bytes())
}

/// Key of the new MB-210 gun loadout.
pub open spec fn mb210_gun37_key() -> EscadraString {
    crate::structs::estring::packed("LOADOUT_MB210_GUN37".spec_bytes())
}

/// Key of the generic 37 mm gun loadout both new records derive from.
pub open spec fn gun37_generic_key() -> EscadraString {
    crate::structs::estring::packed("LOADOUT_GUN37".spec_bytes())
}

/// Key of the MB-210 plane record.
pub open spec fn mb210_craft_key() -> EscadraString {
    crate::structs::estring::packed("CRAFT_MB210".spec_bytes())
}

/// Key of the LA-29 plane record.
pub open spec fn la29_craft_key() -> EscadraString {
    crate::structs::estring::packed("CRAFT_LA29".spec_bytes())
}

/// Copy a list of host addresses, reservation included.
fn copy_ids(v: &CVec<u64>) -> (r: CVec<u64>)
    ensures
        r.items@ == v.items@,
        r.cap == v.cap,
{
    let mut items: Vec<u64> = Vec::new();
    let mut i: usize = 0;
    while i < v.items.len()
        invariant
            i <= v.items@.len(),
            items@.len() == i,
            forall|j: int| 0 <= j < i ==> items@[j] == v.items@[j],
        decreases v.items@.len() - i,
    {
        items.push(v.items[i]);
        i = i + 1;
    }
    proof {
        assert(items@ =~= v.items@);
    }
    CVec { items, cap: v.cap }
}

} // verus!
