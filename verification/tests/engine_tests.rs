use hf_qol::HostVersion;
use hf_qol::structs::tll::TllContainer;
use hf_qol::config::Config;
use hf_qol::dumpable::dumpable;
use hf_qol::guns::patch_sector_blocking;
use hf_qol::patchy::HostRegion;
use hf_qol::patchy::Patch;
use hf_qol::patchy::PatchError;
use hf_qol::patchy::ReturnType;
use hf_qol::patchy::encode_jump;
use hf_qol::patchy::jump_displacement;
use hf_qol::patchy::search_memory_cave;
use hf_qol::plan_init;
use hf_qol::shake::patch_shake;
use hf_qol::structs::cvec::CVec;
use hf_qol::version;
use hf_qol::zoom::calc_zoom_value;
use hf_qol::zoom::patch_levels;
use hf_qol::zoom::patch_zoom;
use hf_qol::zoom::set_zoom_level;

const DEAD_BEEF: [u8; 4] = [0xde, 0xad, 0xbe, 0xef];

#[test]
fn test_patch_call() {
    let address_space: Vec<u8> = DEAD_BEEF.to_vec().repeat(10);

    let address: u64 = 0x140001000;
    let size = 10;
    let mut region = HostRegion { base: address, bytes: address_space };
    let cave: u64 = 0x140200000;

    let patch =
        Patch::patch_call(&mut region, address, 0x7ff700001000, size, true, ReturnType::Nothing, cave)
            .unwrap();

    // Check that the site's bytes were carried into the trampoline head
    let trampoline = patch.trampoline.unwrap();
    assert_eq!(trampoline.bytes[..size], DEAD_BEEF.to_vec().repeat(10)[..size]);
}

#[test]
fn overwrite_replaces_bytes_and_retains_originals() {
    let mut region = HostRegion { base: 0x1000, bytes: vec![1, 2, 3, 4, 5, 6, 7, 8] };
    let data = vec![0xaa, 0xbb, 0xcc];
    let patch = Patch::overwrite(&mut region, 0x1002, &data);

    assert_eq!(region.bytes, vec![1, 2, 0xaa, 0xbb, 0xcc, 6, 7, 8]);
    assert_eq!(patch.overwritten, vec![3, 4, 5]);
    assert_eq!(patch.size, 3);
    assert!(patch.trampoline.is_none());
}

#[test]
fn jump_displacement_is_exact() {
    // Forward jump: target minus the end of the 5-byte instruction.
    assert_eq!(jump_displacement(0x1000, 0x2000), Ok(0xffb));
    // Backward jump.
    assert_eq!(jump_displacement(0x2000, 0x1000), Ok(-0x1005));
    // A distance beyond 2 GiB is refused.
    assert_eq!(
        jump_displacement(0x1000, 0x1_0000_2000),
        Err(PatchError::DisplacementOverflow)
    );
}

#[test]
fn encode_jump_emits_e9_and_little_endian_displacement() {
    assert_eq!(encode_jump(0x12345678), vec![0xe9, 0x78, 0x56, 0x34, 0x12]);
    assert_eq!(encode_jump(-1), vec![0xe9, 0xff, 0xff, 0xff, 0xff]);
}

#[test]
fn patch_call_splices_jump_and_nops() {
    let site: u64 = 0x140001000;
    let cave: u64 = 0x140100000;
    let mut region = HostRegion { base: site, bytes: vec![0xcc; 64] };

    let patch =
        Patch::patch_call(&mut region, site, 0x7ff700001000, 10, true, ReturnType::Nothing, cave)
            .unwrap();

    // First five bytes: jump whose displacement lands on the cave.
    let disp = (cave as i64 - (site as i64 + 5)) as i32;
    let mut expected = encode_jump(disp);
    expected.extend_from_slice(&[0x90; 5]);
    assert_eq!(&region.bytes[..10], &expected[..]);
    // The rest of the page is untouched.
    assert!(region.bytes[10..].iter().all(|&b| b == 0xcc));
    assert_eq!(patch.size, 10);
    assert_eq!(patch.overwritten, vec![0xcc; 10]);
}

#[test]
fn patch_call_refuses_far_cave() {
    let site: u64 = 0x140001000;
    let cave: u64 = 0x540001000; // 16 GiB away
    let mut region = HostRegion { base: site, bytes: vec![0xcc; 64] };
    let before = region.bytes.clone();

    let r = Patch::patch_call(&mut region, site, 0x7ff700001000, 10, true, ReturnType::Nothing, cave);
    assert_eq!(r.err(), Some(PatchError::DisplacementOverflow));
    assert_eq!(region.bytes, before);
}

#[test]
fn trampoline_back_jump_targets_site_end() {
    let site: u64 = 0x140001000;
    let cave: u64 = 0x140100000;
    let size = 10usize;
    let mut region = HostRegion { base: site, bytes: vec![0xcc; 64] };

    let patch =
        Patch::patch_call(&mut region, site, 0x7ff700001000, size, false, ReturnType::Rax, cave)
            .unwrap();
    let trampoline = patch.trampoline.unwrap();
    let n = trampoline.bytes.len();
    // The last five bytes are the jump back to site + size.
    let jmp_at = cave + (n as u64 - 5);
    let disp = ((site + size as u64) as i64 - (jmp_at as i64 + 5)) as i32;
    assert_eq!(&trampoline.bytes[n - 5..], &encode_jump(disp)[..]);
    // RAX is the return channel, so no PUSH RAX opens the stub.
    assert_eq!(trampoline.bytes[0], 0x51);
}

#[test]
fn search_memory_cave_finds_first_free_step() {
    let address: u64 = 0x1_0000_0000;
    let granularity: u64 = 0x10000;
    let lower = address - 0x80000000 + granularity;
    // The first two stepping points are mapped; the third is free.
    let areas = vec![(lower, lower + 2 * granularity + 1)];
    let r = search_memory_cave(address, granularity, &areas);
    assert_eq!(r, Some(lower + 3 * granularity));
}

#[test]
fn search_memory_cave_reports_exhaustion() {
    let address: u64 = 0x1_0000_0000;
    let granularity: u64 = 0x10000;
    // One area covers the whole searched window.
    let areas = vec![(0u64, u64::MAX)];
    let r = search_memory_cave(address, granularity, &areas);
    assert_eq!(r, None);
}

#[test]
fn cvec_push_growth_doubles_capacity() {
    let mut v: CVec<u32> = CVec::empty();
    assert_eq!(v.len(), 0);
    assert!(v.is_empty());
    assert_eq!(v.capacity(), 0);

    let expected_caps = [1usize, 2, 4, 4, 8, 8, 8, 8, 16, 16];
    for k in 0..10u32 {
        v.insert(k * 11);
        assert_eq!(v.len(), (k + 1) as usize);
        assert_eq!(v.capacity(), expected_caps[k as usize]);
    }
    // Reads yield items in insertion order.
    for k in 0..10u32 {
        assert_eq!(*v.get(k as usize), k * 11);
    }
    let listed: Vec<u32> = v.to_list().iter().map(|x| **x).collect();
    let expected: Vec<u32> = (0..10u32).map(|k| k * 11).collect();
    assert_eq!(listed, expected);
}

#[test]
fn version_accepts_only_matching_steam_build() {
    assert!(version(HostVersion::V1_151, "Steam 1.151"));
    assert!(!version(HostVersion::V1_151, "Steam 1.163"));
    assert!(version(HostVersion::V1_163, "Steam 1.163"));
    assert!(!version(HostVersion::V1_163, "Steam 1.151"));
    assert!(!version(HostVersion::V1_163, "Gog 1.163"));
    assert!(!version(HostVersion::V1_163, ""));
}

#[test]
fn config_defaults_match_stock_values() {
    let c = Config::fallback();
    assert!(!c.enable_anti_wobble);
    assert!(!c.enable_unblocked_guns);
    assert!(c.enable_arcade_zoom);
    assert_eq!(c.max_zoom_level, 5);
    assert_eq!(c.min_zoom_level, 3);
    assert_eq!(c.zoom_levels, vec![14000, 7000, 1000, 700, 500, 300]);
}

#[test]
fn plan_init_follows_flags_and_warns_on_short_tables() {
    let mut c = Config::fallback();
    c.enable_anti_wobble = true;
    c.zoom_levels = vec![14000, 7000, 1000];
    c.max_zoom_level = 5;
    let plan = plan_init(&c);
    assert!(plan.anti_wobble);
    assert!(plan.arcade_zoom);
    assert!(!plan.unblocked_guns);
    assert!(plan.warn_few_levels);
    assert!(plan.warn_short_table);

    let quiet = plan_init(&Config::fallback());
    assert!(!quiet.warn_few_levels);
    assert!(!quiet.warn_short_table);
}

#[test]
fn calc_zoom_value_defers_guards_and_looks_up() {
    let levels = vec![14000u32, 7000, 1000, 700, 500, 300];
    // Outside arcade mode the original routine must run.
    assert_eq!(calc_zoom_value(false, 2, &levels), None);
    // An index past the table, the table length included, yields the safe
    // default of one.
    assert_eq!(calc_zoom_value(true, 6, &levels), Some(1000));
    assert_eq!(calc_zoom_value(true, 100, &levels), Some(1000));
    // An index in range reads the table.
    assert_eq!(calc_zoom_value(true, 0, &levels), Some(14000));
    assert_eq!(calc_zoom_value(true, 5, &levels), Some(300));
}

#[test]
fn set_zoom_level_writes_bounds_to_version_addresses() {
    let ((min_addr, min_v), (max_addr, max_v)) = set_zoom_level(HostVersion::V1_163, 3, 5);
    assert_eq!(min_addr, 0x143a119a4);
    assert_eq!(max_addr, 0x1403c11d0);
    assert_eq!((min_v, max_v), (3, 5));
}

#[test]
fn patch_shake_plants_unit_float_bytes() {
    let addr: u64 = 0x140354758;
    let mut region = HostRegion { base: addr - 8, bytes: vec![0x11; 32] };
    let p = patch_shake(&mut region, HostVersion::V1_163);
    assert_eq!(&region.bytes[8..12], &[0x00, 0x00, 0x80, 0x3f]);
    assert_eq!(p.overwritten, vec![0x11; 4]);
    assert_eq!(p.size, 4);
}

#[test]
fn patch_sector_blocking_only_touches_old_build() {
    let addr: u64 = 0x14003314d;
    let mut region = HostRegion { base: addr, bytes: vec![0x22; 16] };
    let untouched = region.bytes.clone();

    let none = patch_sector_blocking(&mut region, HostVersion::V1_163);
    assert!(none.is_none());
    assert_eq!(region.bytes, untouched);

    let p = patch_sector_blocking(&mut region, HostVersion::V1_151).unwrap();
    assert_eq!(&region.bytes[..6], &[0x90; 6]);
    assert_eq!(p.overwritten, vec![0x22; 6]);
}

#[test]
fn dumpable_patch_preserves_site_bytes_in_trampoline() {
    let addr: u64 = 0x1400256e0;
    let cave: u64 = 0x140300000;
    let mut region = HostRegion { base: addr - 16, bytes: (0u8..64).collect() };
    let site_bytes = region.bytes[16..22].to_vec();

    let p = dumpable(&mut region, HostVersion::V1_163, 0x7ff700002000, cave).unwrap();
    assert_eq!(p.size, 6);
    assert_eq!(p.overwritten, site_bytes);
    let t = p.trampoline.unwrap();
    assert_eq!(&t.bytes[..6], &site_bytes[..]);
    assert_eq!(t.base, cave);
}

#[test]
fn zoom_patches_install_at_version_sites() {
    let zoom_site: u64 = 0x1402c31c9;
    let cave: u64 = 0x1402d0000;
    let mut region = HostRegion { base: zoom_site, bytes: vec![0x33; 32] };
    let p = patch_zoom(&mut region, HostVersion::V1_163, 0x7ff700003000, cave).unwrap();
    assert_eq!(p.size, 14);
    // Bytes 5..14 of the site are the NOP slide.
    assert!(region.bytes[5..14].iter().all(|&b| b == 0x90));

    let level_site: u64 = 0x14026b03f;
    let mut region2 = HostRegion { base: level_site, bytes: vec![0x44; 16] };
    let p2 = patch_levels(&mut region2, HostVersion::V1_163, 0x7ff700004000, 0x140280000).unwrap();
    assert_eq!(p2.size, 5);
    // The XMM0 return channel leaves XMM0 out of the save block: the stub
    // starts with PUSH RAX and never stores XMM0 below the call.
    let t = p2.trampoline.unwrap();
    assert_eq!(t.bytes[0], 0x50);
}

#[test]
fn left_left_insertion_yields_red_children_under_black_root() {
    let mut c = TllContainer::<i32, String>::new();
    c.insert(50, "fifty".to_string());
    c.insert(30, "thirty".to_string());
    c.insert(20, "twenty".to_string());

    let root = c.get_sentinel().parent;
    assert_eq!(*c.key_at(root).unwrap(), 30);
    assert!(!c.node(root).is_red);
    let l = c.node(root).left;
    let r = c.node(root).right;
    assert_eq!(*c.key_at(l).unwrap(), 20);
    assert_eq!(*c.key_at(r).unwrap(), 50);
    assert!(c.node(l).is_red);
    assert!(c.node(r).is_red);
}

#[test]
fn right_right_insertion_yields_red_children_under_black_root() {
    let mut c = TllContainer::<i32, String>::new();
    c.insert(50, "fifty".to_string());
    c.insert(70, "seventy".to_string());
    c.insert(80, "eighty".to_string());

    let root = c.get_sentinel().parent;
    assert_eq!(*c.key_at(root).unwrap(), 70);
    assert!(!c.node(root).is_red);
    let l = c.node(root).left;
    let r = c.node(root).right;
    assert_eq!(*c.key_at(l).unwrap(), 50);
    assert_eq!(*c.key_at(r).unwrap(), 80);
    assert!(c.node(l).is_red);
    assert!(c.node(r).is_red);
}
