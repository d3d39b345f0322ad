use hf_qol::structs::cvec::CVec;
use hf_qol::structs::estring::EscadraString;
use hf_qol::structs::loadout::Loadout;
use hf_qol::structs::plane::Plane;
use hf_qol::structs::tll::TllContainer;
use hf_qol::structs::tll::Cmp;
use hf_qol::structs::tll::TotalOrder;
use hf_qol::plane::patch_planes;

fn verify_rb_properties<T: TotalOrder, U>(c: &TllContainer<T, U>, i: usize) -> (bool, usize) {
    if i == 0 {
        return (true, 1);
    }
    let n = c.node(i);
    if n.is_red {
        if n.left != 0 && c.node(n.left).is_red {
            return (false, 0);
        }
        if n.right != 0 && c.node(n.right).is_red {
            return (false, 0);
        }
    }
    let (left_valid, left_black_height) = verify_rb_properties(c, n.left);
    let (right_valid, right_black_height) = verify_rb_properties(c, n.right);
    if !left_valid || !right_valid {
        return (false, 0);
    }
    if left_black_height != right_black_height {
        return (false, 0);
    }
    (true, left_black_height + if n.is_red { 0 } else { 1 })
}

fn key_text(s: &EscadraString) -> String {
    String::from_utf8(s.get_str()).unwrap()
}

const GAME_LOADOUTS: [&str; 10] = [
    "LOADOUT_LA29_FAB100",
    "LOADOUT_LA29_FAB250",
    "LOADOUT_LA29_GUN37",
    "LOADOUT_LA29_NURS122",
    "LOADOUT_T7_FAB100",
    "LOADOUT_T7_FAB250",
    "LOADOUT_T7_GUN37",
    "LOADOUT_T7_K13",
    "LOADOUT_T7_NURS122",
    "LOADOUT_T7_NURS340",
];

#[test]
fn test_game_loadout_tree_structure() {
    // Recreate the tree the host builds for its stock loadouts.
    let mut container = TllContainer::<EscadraString, String>::new();

    for loadout in &GAME_LOADOUTS {
        container.insert(EscadraString::from(loadout), format!("data_{}", loadout));
    }

    assert_eq!(container.len(), 10);

    let root = container.get_sentinel().parent;
    assert!(!container.node(root).is_red, "Root must be black");

    let (valid, _) = verify_rb_properties(&container, root);
    assert!(valid, "Tree must maintain red-black properties");

    let items = container.get_items();
    assert_eq!(items.len(), 10);
}

#[test]
fn test_insert_loadout_la29_gun40() {
    // Insert the custom loadout into a tree with the host's stock loadouts.
    let mut container = TllContainer::<EscadraString, String>::new();

    for loadout in &GAME_LOADOUTS {
        container.insert(EscadraString::from(loadout), format!("data_{}", loadout));
    }

    container.insert(
        EscadraString::from("LOADOUT_LA29_GUN40"),
        "custom_loadout".to_string(),
    );

    assert_eq!(container.len(), 11, "Should have 11 loadouts after insertion");

    let root = container.get_sentinel().parent;
    assert!(!container.node(root).is_red, "Root must remain black after insertion");

    let (valid, _) = verify_rb_properties(&container, root);
    assert!(
        valid,
        "Red-black properties must be maintained after inserting LOADOUT_LA29_GUN40"
    );

    // The new loadout must be in the tree
    assert!(
        container.get(&EscadraString::from("LOADOUT_LA29_GUN40")).is_some(),
        "New loadout should be in the tree"
    );

    // In-order keys must be sorted
    let keys: Vec<String> = container.get_map().iter().map(|(k, _)| key_text(k)).collect();
    let mut sorted_keys = keys.clone();
    sorted_keys.sort();
    assert_eq!(keys, sorted_keys, "Keys should be in sorted order");

    let gun40_pos = keys.iter().position(|k| k == "LOADOUT_LA29_GUN40").unwrap();
    let gun37_pos = keys.iter().position(|k| k == "LOADOUT_LA29_GUN37").unwrap();
    let nurs122_pos = keys.iter().position(|k| k == "LOADOUT_LA29_NURS122").unwrap();

    assert!(
        gun37_pos < gun40_pos && gun40_pos < nurs122_pos,
        "GUN40 should be between GUN37 and NURS122"
    );
}

#[test]
fn test_all_game_loadouts_sorted() {
    // All stock loadouts come back in alphabetical order.
    let mut container = TllContainer::<EscadraString, String>::new();

    for loadout in &GAME_LOADOUTS {
        container.insert(EscadraString::from(loadout), format!("data_{}", loadout));
    }

    let keys: Vec<String> = container.get_map().iter().map(|(k, _)| key_text(k)).collect();
    let expected: Vec<String> = GAME_LOADOUTS.iter().map(|s| s.to_string()).collect();
    assert_eq!(keys, expected, "Loadouts should be in alphabetical order");
}

fn stock_loadout(name: &str) -> Loadout {
    Loadout {
        plane_loadout: EscadraString::from(name),
        generic_loadout: EscadraString::from("LOADOUT_GUN37"),
        items: CVec::empty(),
        launch_loadout_weight: 100,
        has_gun37mm: false,
    }
}

#[test]
fn patch_planes_inserts_loadouts_and_wires_planes() {
    let mut loadouts = TllContainer::<EscadraString, Loadout>::new();
    for name in &GAME_LOADOUTS {
        loadouts.insert(EscadraString::from(name), stock_loadout(name));
    }
    let mut planes = TllContainer::<EscadraString, Plane>::new();
    planes.insert(EscadraString::from("CRAFT_LA29"), Plane { loadouts: CVec::empty() });
    planes.insert(EscadraString::from("CRAFT_T7"), Plane { loadouts: CVec::empty() });

    let found_la29 = patch_planes(&mut loadouts, &mut planes);
    assert!(found_la29);

    assert_eq!(loadouts.len(), 12);
    assert!(loadouts.get(&EscadraString::from("LOADOUT_LA29_GUN40")).is_some());
    assert!(loadouts.get(&EscadraString::from("LOADOUT_MB210_GUN37")).is_some());

    assert_eq!(planes.len(), 3);
    let la29 = planes.get(&EscadraString::from("CRAFT_LA29")).unwrap();
    assert_eq!(la29.loadouts.len(), 1);
    let gun40_row = loadouts.find_idx(&EscadraString::from("LOADOUT_LA29_GUN40"));
    assert_eq!(*la29.loadouts.get(0), gun40_row as u64);

    let mb210 = planes.get(&EscadraString::from("CRAFT_MB210")).unwrap();
    assert_eq!(mb210.loadouts.len(), 1);
    let mb_gun_row = loadouts.find_idx(&EscadraString::from("LOADOUT_MB210_GUN37"));
    assert_eq!(*mb210.loadouts.get(0), mb_gun_row as u64);
}

#[test]
fn patch_planes_without_la29_reports_failure() {
    let mut loadouts = TllContainer::<EscadraString, Loadout>::new();
    let mut planes = TllContainer::<EscadraString, Plane>::new();

    let found_la29 = patch_planes(&mut loadouts, &mut planes);
    assert!(!found_la29);

    // The records are inserted all the same.
    assert_eq!(loadouts.len(), 2);
    assert_eq!(planes.len(), 1);
    assert!(planes.get(&EscadraString::from("CRAFT_MB210")).is_some());
}

#[test]
fn host_string_round_trip_and_order() {
    let a = EscadraString::from("LOADOUT_LA29_GUN37");
    let b = EscadraString::from("LOADOUT_LA29_GUN40");
    let c = EscadraString::from("LOADOUT_LA29_NURS122");

    assert_eq!(String::from_utf8(a.get_str()).unwrap(), "LOADOUT_LA29_GUN37");
    assert_eq!(String::from_utf8(b.get_str()).unwrap(), "LOADOUT_LA29_GUN40");

    assert!(matches!(a.compare(&b), Cmp::Less));
    assert!(matches!(b.compare(&c), Cmp::Less));
    assert_eq!(EscadraString::from("LOADOUT_LA29_GUN37"), a);
}
