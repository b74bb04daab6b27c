use keystone_sm::error_code::{
    SBI_ERR_SM_PMP_REGION_IMPOSSIBLE_TOR, SBI_ERR_SM_PMP_REGION_INVALID,
    SBI_ERR_SM_PMP_REGION_MAX_REACHED, SBI_ERR_SM_PMP_REGION_NOT_PAGE_GRANULARITY,
    SBI_ERR_SM_PMP_REGION_OVERLAP, SBI_ERR_SM_PMP_REGION_SIZE_INVALID, SBI_ERR_SM_PMP_SUCCESS,
};
use keystone_sm::machine::{hart_state, machine};
use keystone_sm::opensbi::{PMP_A_NAPOT, PMP_A_TOR};
use keystone_sm::pmp::{
    pmp_detect_region_overlap_atomic, pmp_init, pmp_priority, pmp_region, pmp_region_free_atomic,
    pmp_region_get_addr, pmp_region_get_size, pmp_region_init, pmp_region_init_atomic,
    pmp_set_global, pmp_set_keystone, pmp_table, pmp_unset, pmp_unset_global, PMP_ALL_PERM,
    PMP_MAX_N_REGION, PMP_NO_PERM, PMP_N_REG,
};

const OK: i32 = SBI_ERR_SM_PMP_SUCCESS as i32;

fn cfg_byte(cfg: u64, n: usize) -> u8 {
    ((cfg >> (8 * n)) & 0xff) as u8
}

#[test]
fn new_table_is_empty() {
    let pmp = pmp_table::new();
    assert_eq!(pmp.reg_bitmap, 0);
    assert_eq!(pmp.region_def_bitmap, 0);
    for r in pmp.regions.iter() {
        assert_eq!(*r, pmp_region::new());
    }
    assert_eq!(pmp_region_get_addr(&pmp, 0), 0);
    assert_eq!(pmp_region_get_size(&pmp, 0), 0);
    assert_eq!(PMP_N_REG, 8);
    assert_eq!(PMP_MAX_N_REGION, 16);
}

#[test]
fn napot_region_takes_first_free_slot_and_register() {
    let mut pmp = pmp_table::new();
    let mut rid: i32 = -7;
    let r = pmp_region_init(
        &mut pmp,
        0x8010_0000,
        0x10_0000,
        pmp_priority::PMP_PRI_ANY,
        &mut rid,
        0,
    );
    assert_eq!(r, OK);
    assert_eq!(rid, 0);
    assert_eq!(
        pmp.regions[0],
        pmp_region {
            size: 0x10_0000,
            addrmode: PMP_A_NAPOT,
            addr: 0x8010_0000,
            allow_overlap: 0,
            reg_idx: 0
        }
    );
    assert_eq!(pmp.region_def_bitmap, 0b1);
    assert_eq!(pmp.reg_bitmap, 0b1);
    assert_eq!(pmp_region_get_addr(&pmp, 0), 0x8010_0000);
    assert_eq!(pmp_region_get_size(&pmp, 0), 0x10_0000);

    let r = pmp_region_init_atomic(
        &mut pmp,
        0x8040_0000,
        0x1000,
        pmp_priority::PMP_PRI_ANY,
        &mut rid,
        0,
    );
    assert_eq!(r, OK);
    assert_eq!(rid, 1);
    assert_eq!(pmp.regions[1].reg_idx, 1);
    assert_eq!(pmp.region_def_bitmap, 0b11);
    assert_eq!(pmp.reg_bitmap, 0b11);
}

#[test]
fn priorities_pin_their_registers() {
    let mut pmp = pmp_table::new();
    let mut rid: i32 = 0;
    assert_eq!(
        pmp_region_init(&mut pmp, 0x8000_0000, 0x20_0000, pmp_priority::PMP_PRI_TOP, &mut rid, 0),
        OK
    );
    assert_eq!(pmp.regions[rid as usize].reg_idx, 0);
    assert_eq!(
        pmp_region_init(&mut pmp, 0, u64::MAX, pmp_priority::PMP_PRI_BOTTOM, &mut rid, 1),
        OK
    );
    assert_eq!(rid, 1);
    assert_eq!(pmp.regions[1].reg_idx, 7);
    assert_eq!(pmp.regions[1].addrmode, PMP_A_NAPOT);
    assert_eq!(pmp.reg_bitmap, 0b1000_0001);
    // the top register is taken now
    let before = pmp;
    assert_eq!(
        pmp_region_init(&mut pmp, 0x9000_0000, 0x1000, pmp_priority::PMP_PRI_TOP, &mut rid, 0),
        SBI_ERR_SM_PMP_REGION_MAX_REACHED as i32
    );
    assert_eq!(pmp, before);
    assert_eq!(rid, 1);
    // the bottom register is shared
    assert_eq!(
        pmp_region_init(&mut pmp, 0x9000_0000, 0x1000, pmp_priority::PMP_PRI_BOTTOM, &mut rid, 0),
        OK
    );
    assert_eq!(pmp.regions[rid as usize].reg_idx, 7);
}

#[test]
fn tor_region_takes_two_neighbouring_registers() {
    let mut pmp = pmp_table::new();
    let mut rid: i32 = 0;
    // register 0 taken, 1 free, 2 taken, 3 and 4 free
    pmp.reg_bitmap = 0b0101;
    let r = pmp_region_init(&mut pmp, 0x8000_3000, 0x3000, pmp_priority::PMP_PRI_ANY, &mut rid, 0);
    assert_eq!(r, OK);
    assert_eq!(rid, 0);
    assert_eq!(
        pmp.regions[0],
        pmp_region {
            size: 0x3000,
            addrmode: PMP_A_TOR,
            addr: 0x8000_3000,
            allow_overlap: 0,
            reg_idx: 4
        }
    );
    assert_eq!(pmp.reg_bitmap, 0b1_1101);
}

#[test]
fn tor_region_on_empty_table_uses_registers_0_and_1() {
    let mut pmp = pmp_table::new();
    let mut rid: i32 = 0;
    assert_eq!(
        pmp_region_init(&mut pmp, 0x8000_3000, 0x3000, pmp_priority::PMP_PRI_ANY, &mut rid, 0),
        OK
    );
    assert_eq!(pmp.regions[0].reg_idx, 1);
    assert_eq!(pmp.reg_bitmap, 0b11);
}

#[test]
fn top_tor_from_address_zero_takes_register_0_alone() {
    let mut pmp = pmp_table::new();
    let mut rid: i32 = 0;
    assert_eq!(
        pmp_region_init(&mut pmp, 0, 0x3000, pmp_priority::PMP_PRI_TOP, &mut rid, 0),
        OK
    );
    assert_eq!(pmp.regions[0].addrmode, PMP_A_TOR);
    assert_eq!(pmp.regions[0].reg_idx, 0);
    assert_eq!(pmp.reg_bitmap, 0b1);
}

#[test]
fn each_error_leaves_the_table_as_it_was() {
    let mut pmp = pmp_table::new();
    let mut rid: i32 = 42;
    assert_eq!(
        pmp_region_init(&mut pmp, 0x8000_0000, 0x4000, pmp_priority::PMP_PRI_ANY, &mut rid, 0),
        OK
    );
    let before = pmp;
    rid = 42;
    let cases: [(u64, u64, pmp_priority, i32, usize); 8] = [
        (0x9000_0000, 0, pmp_priority::PMP_PRI_ANY, 0, SBI_ERR_SM_PMP_REGION_SIZE_INVALID),
        (0x8000_3000, 0x2000, pmp_priority::PMP_PRI_ANY, 0, SBI_ERR_SM_PMP_REGION_OVERLAP),
        (u64::MAX - 0xfff, 0x1000, pmp_priority::PMP_PRI_ANY, 0, SBI_ERR_SM_PMP_REGION_OVERLAP),
        (
            0x9000_0000,
            0x1800,
            pmp_priority::PMP_PRI_ANY,
            0,
            SBI_ERR_SM_PMP_REGION_NOT_PAGE_GRANULARITY,
        ),
        (
            0x9000_0800,
            0x1000,
            pmp_priority::PMP_PRI_ANY,
            0,
            SBI_ERR_SM_PMP_REGION_NOT_PAGE_GRANULARITY,
        ),
        (
            0x9000_0000,
            0x3000,
            pmp_priority::PMP_PRI_BOTTOM,
            0,
            SBI_ERR_SM_PMP_REGION_IMPOSSIBLE_TOR,
        ),
        (
            0x9000_0000,
            0x3000,
            pmp_priority::PMP_PRI_TOP,
            0,
            SBI_ERR_SM_PMP_REGION_IMPOSSIBLE_TOR,
        ),
        (0x8000_0000, 0x4000, pmp_priority::PMP_PRI_TOP, 1, SBI_ERR_SM_PMP_REGION_MAX_REACHED),
    ];
    for (start, size, priority, allow, want) in cases {
        assert_eq!(
            pmp_region_init(&mut pmp, start, size, priority, &mut rid, allow),
            want as i32,
            "start {:#x} size {:#x}",
            start,
            size
        );
        assert_eq!(pmp, before);
        assert_eq!(rid, 42);
    }
}

#[test]
fn size_zero_is_reported_before_overlap() {
    let mut pmp = pmp_table::new();
    let mut rid: i32 = 0;
    assert_eq!(
        pmp_region_init(&mut pmp, 0x8000_0000, 0x4000, pmp_priority::PMP_PRI_ANY, &mut rid, 0),
        OK
    );
    assert_eq!(
        pmp_region_init(&mut pmp, 0x8000_1000, 0, pmp_priority::PMP_PRI_ANY, &mut rid, 0),
        SBI_ERR_SM_PMP_REGION_SIZE_INVALID as i32
    );
}

#[test]
fn overlap_is_detected_exactly_at_the_boundaries() {
    let mut pmp = pmp_table::new();
    let mut rid: i32 = 0;
    assert_eq!(
        pmp_region_init(&mut pmp, 0x8000_4000, 0x4000, pmp_priority::PMP_PRI_ANY, &mut rid, 0),
        OK
    );
    // ends where the region begins
    assert_eq!(pmp_detect_region_overlap_atomic(&pmp, 0x8000_0000, 0x4000), 0);
    // one byte into the region
    assert_eq!(pmp_detect_region_overlap_atomic(&pmp, 0x8000_0000, 0x4001), 1);
    // begins where the region ends
    assert_eq!(pmp_detect_region_overlap_atomic(&pmp, 0x8000_8000, 0x1000), 0);
    // last byte of the region
    assert_eq!(pmp_detect_region_overlap_atomic(&pmp, 0x8000_7fff, 1), 1);
    // inside, and around
    assert_eq!(pmp_detect_region_overlap_atomic(&pmp, 0x8000_5000, 0x1000), 1);
    assert_eq!(pmp_detect_region_overlap_atomic(&pmp, 0x8000_0000, 0x10_0000), 1);
    // a range that runs past the top of the address space
    assert_eq!(pmp_detect_region_overlap_atomic(&pmp, u64::MAX, 1), 1);
    assert_eq!(pmp_detect_region_overlap_atomic(&pmp, u64::MAX - 1, 1), 0);
}

#[test]
fn a_region_that_allows_overlap_is_not_in_the_way() {
    let mut pmp = pmp_table::new();
    let mut rid: i32 = 0;
    assert_eq!(
        pmp_region_init(&mut pmp, 0, u64::MAX, pmp_priority::PMP_PRI_BOTTOM, &mut rid, 1),
        OK
    );
    assert_eq!(pmp_detect_region_overlap_atomic(&pmp, 0x8000_0000, 0x1000), 0);
    assert_eq!(
        pmp_region_init(&mut pmp, 0x8000_0000, 0x1000, pmp_priority::PMP_PRI_ANY, &mut rid, 0),
        OK
    );
    // and a region may ask to overlap one that forbids it
    assert_eq!(
        pmp_region_init(&mut pmp, 0x8000_0000, 0x1000, pmp_priority::PMP_PRI_ANY, &mut rid, 1),
        OK
    );
}

#[test]
fn valid_regions_that_forbid_overlap_stay_disjoint() {
    let mut pmp = pmp_table::new();
    let mut rid: i32 = 0;
    let requests: [(u64, u64); 7] = [
        (0x8000_0000, 0x4000),
        (0x8000_2000, 0x2000),
        (0x8000_4000, 0x1000),
        (0x8000_3000, 0x3000),
        (0x8000_5000, 0x3000),
        (0x7fff_f000, 0x2000),
        (0x8000_8000, 0x8000),
    ];
    for (start, size) in requests {
        pmp_region_init(&mut pmp, start, size, pmp_priority::PMP_PRI_BOTTOM, &mut rid, 0);
        pmp_region_init(&mut pmp, start, size, pmp_priority::PMP_PRI_ANY, &mut rid, 0);
    }
    let mut valid = Vec::new();
    for i in 0..16 {
        if pmp.region_def_bitmap & (1 << i) != 0 {
            valid.push(pmp.regions[i]);
        }
    }
    assert!(valid.len() >= 3);
    for (i, a) in valid.iter().enumerate() {
        for (j, b) in valid.iter().enumerate() {
            if i != j {
                assert!(a.addr + a.size <= b.addr || b.addr + b.size <= a.addr);
            }
        }
    }
}

#[test]
fn seventeenth_region_is_refused() {
    let mut pmp = pmp_table::new();
    let mut ids = Vec::new();
    for i in 0..PMP_MAX_N_REGION as u64 {
        let mut rid: i32 = -1;
        let r = pmp_region_init_atomic(
            &mut pmp,
            0x8000_0000 + i * 0x1000,
            0x1000,
            pmp_priority::PMP_PRI_BOTTOM,
            &mut rid,
            0,
        );
        assert_eq!(r, OK, "region {}", i);
        assert!(!ids.contains(&rid));
        ids.push(rid);
    }
    assert_eq!(ids.len(), 16);
    assert_eq!(pmp.region_def_bitmap, 0xffff);
    let before = pmp;
    let mut rid: i32 = -1;
    let r = pmp_region_init_atomic(
        &mut pmp,
        0x9000_0000,
        0x1000,
        pmp_priority::PMP_PRI_BOTTOM,
        &mut rid,
        0,
    );
    assert_eq!(r, SBI_ERR_SM_PMP_REGION_MAX_REACHED as i32);
    assert_eq!(rid, -1);
    assert_eq!(pmp, before);
}

#[test]
fn registers_run_out_before_slots_for_any_priority() {
    let mut pmp = pmp_table::new();
    let mut rid: i32 = -1;
    for i in 0..8u64 {
        assert_eq!(
            pmp_region_init(
                &mut pmp,
                0x8000_0000 + i * 0x1000,
                0x1000,
                pmp_priority::PMP_PRI_ANY,
                &mut rid,
                0
            ),
            OK
        );
        assert_eq!(pmp.regions[rid as usize].reg_idx, i as i32);
    }
    assert_eq!(pmp.reg_bitmap, 0xff);
    assert_eq!(
        pmp_region_init(&mut pmp, 0x9000_0000, 0x1000, pmp_priority::PMP_PRI_ANY, &mut rid, 0),
        SBI_ERR_SM_PMP_REGION_MAX_REACHED as i32
    );
}

#[test]
fn tor_needs_a_pair_even_if_single_registers_are_free() {
    let mut pmp = pmp_table::new();
    let mut rid: i32 = -1;
    pmp.reg_bitmap = 0b1010_1010;
    let before = pmp;
    assert_eq!(
        pmp_region_init(&mut pmp, 0x8000_3000, 0x3000, pmp_priority::PMP_PRI_ANY, &mut rid, 0),
        SBI_ERR_SM_PMP_REGION_MAX_REACHED as i32
    );
    assert_eq!(pmp, before);
    // the last register has no upper neighbour
    pmp.reg_bitmap = 0b0111_1111;
    assert_eq!(
        pmp_region_init(&mut pmp, 0x8000_3000, 0x3000, pmp_priority::PMP_PRI_ANY, &mut rid, 0),
        SBI_ERR_SM_PMP_REGION_MAX_REACHED as i32
    );
}

#[test]
fn free_gives_slot_and_registers_back() {
    let mut pmp = pmp_table::new();
    let empty = pmp;
    let mut a: i32 = -1;
    let mut b: i32 = -1;
    assert_eq!(
        pmp_region_init(&mut pmp, 0x8000_0000, 0x1000, pmp_priority::PMP_PRI_ANY, &mut a, 0),
        OK
    );
    let one = pmp;
    assert_eq!(
        pmp_region_init(&mut pmp, 0x8000_3000, 0x3000, pmp_priority::PMP_PRI_ANY, &mut b, 0),
        OK
    );
    assert_eq!(pmp.reg_bitmap, 0b111);
    assert_eq!(pmp_region_free_atomic(&mut pmp, b), OK);
    assert_eq!(pmp, one);
    assert_eq!(pmp_region_free_atomic(&mut pmp, b), SBI_ERR_SM_PMP_REGION_INVALID as i32);
    assert_eq!(pmp, one);
    assert_eq!(pmp_region_free_atomic(&mut pmp, a), OK);
    assert_eq!(pmp, empty);
    for bad in [-1, 16, 17, i32::MAX, i32::MIN] {
        assert_eq!(pmp_region_free_atomic(&mut pmp, bad), SBI_ERR_SM_PMP_REGION_INVALID as i32);
        assert_eq!(pmp_region_get_addr(&pmp, bad), 0);
        assert_eq!(pmp_region_get_size(&pmp, bad), 0);
    }
}

#[test]
fn a_freed_slot_is_used_again() {
    let mut pmp = pmp_table::new();
    let mut rid: i32 = -1;
    for i in 0..3u64 {
        pmp_region_init(
            &mut pmp,
            0x8000_0000 + i * 0x1000,
            0x1000,
            pmp_priority::PMP_PRI_ANY,
            &mut rid,
            0,
        );
    }
    assert_eq!(pmp_region_free_atomic(&mut pmp, 1), OK);
    assert_eq!(
        pmp_region_init(&mut pmp, 0x8000_1000, 0x1000, pmp_priority::PMP_PRI_ANY, &mut rid, 0),
        OK
    );
    assert_eq!(rid, 1);
    assert_eq!(pmp.regions[1].reg_idx, 1);
}

#[test]
fn set_programs_a_napot_entry() {
    let mut pmp = pmp_table::new();
    let mut rid: i32 = -1;
    pmp.reg_bitmap = 0b11;
    assert_eq!(
        pmp_region_init(&mut pmp, 0x8010_0000, 0x10_0000, pmp_priority::PMP_PRI_ANY, &mut rid, 0),
        OK
    );
    assert_eq!(pmp.regions[0].reg_idx, 2);
    let mut hart = hart_state::new();
    hart.pmpcfg[0] = 0x1122_3344_5566_7788;
    hart.pmpaddr[1] = 0xdead;
    let before = hart;
    assert_eq!(pmp_set_keystone(&pmp, &mut hart, rid, 0xff), OK);
    assert_eq!(hart.pmpaddr[2], 0x2005_ffff);
    assert_eq!(hart.pmpcfg[0], 0x1122_3344_551f_7788);
    let mut want = before;
    want.pmpaddr[2] = 0x2005_ffff;
    want.pmpcfg[0] = 0x1122_3344_551f_7788;
    assert_eq!(hart, want);

    assert_eq!(pmp_set_keystone(&pmp, &mut hart, rid, PMP_NO_PERM), OK);
    assert_eq!(cfg_byte(hart.pmpcfg[0], 2), PMP_A_NAPOT);
    assert_eq!(pmp_unset(&pmp, &mut hart, rid), SBI_ERR_SM_PMP_SUCCESS);
    assert_eq!(hart.pmpaddr[2], 0);
    assert_eq!(hart.pmpcfg[0], 0x1122_3344_5500_7788);
}

#[test]
fn set_programs_both_entries_of_a_tor_region() {
    let mut pmp = pmp_table::new();
    let mut rid: i32 = -1;
    pmp.reg_bitmap = 0b1;
    assert_eq!(
        pmp_region_init(&mut pmp, 0x8000_3000, 0x3000, pmp_priority::PMP_PRI_ANY, &mut rid, 0),
        OK
    );
    assert_eq!(pmp.regions[0].reg_idx, 2);
    let mut hart = hart_state::new();
    hart.pmpcfg[0] = u64::MAX;
    assert_eq!(pmp_set_keystone(&pmp, &mut hart, rid, PMP_ALL_PERM), OK);
    assert_eq!(hart.pmpaddr[2], 0x2000_1800);
    assert_eq!(hart.pmpaddr[1], 0x2000_0c00);
    assert_eq!(cfg_byte(hart.pmpcfg[0], 2), PMP_A_TOR | 7);
    assert_eq!(cfg_byte(hart.pmpcfg[0], 1), 0);
    assert_eq!(hart.pmpcfg[0], 0xffff_ffff_ff0f_00ff);
    assert_eq!(pmp_unset(&pmp, &mut hart, rid), SBI_ERR_SM_PMP_SUCCESS);
    assert_eq!(hart.pmpaddr[2], 0);
    assert_eq!(hart.pmpaddr[1], 0);
    assert_eq!(hart.pmpcfg[0], 0xffff_ffff_ff00_00ff);
}

#[test]
fn the_region_of_all_memory_has_all_address_bits_set() {
    let mut pmp = pmp_table::new();
    let mut rid: i32 = -1;
    assert_eq!(
        pmp_region_init(&mut pmp, 0, u64::MAX, pmp_priority::PMP_PRI_BOTTOM, &mut rid, 1),
        OK
    );
    let mut hart = hart_state::new();
    assert_eq!(pmp_set_keystone(&pmp, &mut hart, rid, PMP_ALL_PERM), OK);
    assert_eq!(hart.pmpaddr[7], u64::MAX);
    assert_eq!(hart.pmpcfg[0], 0x1f00_0000_0000_0000);
}

#[test]
fn set_and_unset_refuse_an_empty_slot() {
    let pmp = pmp_table::new();
    let mut hart = hart_state::new();
    hart.pmpcfg[0] = 5;
    let before = hart;
    assert_eq!(
        pmp_set_keystone(&pmp, &mut hart, 0, PMP_ALL_PERM),
        SBI_ERR_SM_PMP_REGION_INVALID as i32
    );
    assert_eq!(pmp_unset(&pmp, &mut hart, 3), SBI_ERR_SM_PMP_REGION_INVALID);
    assert_eq!(pmp_set_keystone(&pmp, &mut hart, -1, 0), SBI_ERR_SM_PMP_REGION_INVALID as i32);
    assert_eq!(hart, before);
}

#[test]
fn pmp_init_clears_the_eight_entries() {
    let mut hart = hart_state::new();
    for i in 0..16 {
        hart.pmpaddr[i] = 0x100 + i as u64;
    }
    hart.pmpcfg[0] = u64::MAX;
    hart.pmpcfg[2] = 0x0707;
    hart.satp = 9;
    pmp_init(&mut hart);
    for i in 0..8 {
        assert_eq!(hart.pmpaddr[i], 0);
    }
    for i in 8..16 {
        assert_eq!(hart.pmpaddr[i], 0x100 + i as u64);
    }
    assert_eq!(hart.pmpcfg[0], 0);
    assert_eq!(hart.pmpcfg[2], 0x0707);
    assert_eq!(hart.satp, 9);
}

#[test]
fn global_set_reaches_the_started_harts_of_the_platform() {
    let mut pmp = pmp_table::new();
    let mut rid: i32 = -1;
    assert_eq!(
        pmp_region_init(&mut pmp, 0x8010_0000, 0x10_0000, pmp_priority::PMP_PRI_ANY, &mut rid, 0),
        OK
    );
    let mut m = machine::new();
    m.harts[0].started = true;
    m.harts[3].started = true;
    m.harts[7].started = true;
    m.harts[9].started = true; // not a hart of the platform
    let before = m.clone();
    assert_eq!(pmp_set_global(&pmp, &mut m, rid, 0x5), OK);
    for h in 0..16 {
        if h == 0 || h == 3 || h == 7 {
            assert_eq!(m.harts[h].pmpaddr[0], 0x2005_ffff, "hart {}", h);
            assert_eq!(m.harts[h].pmpcfg[0], 0x1d);
        } else {
            assert_eq!(m.harts[h], before.harts[h]);
        }
    }
    assert_eq!(pmp_unset_global(&pmp, &mut m, rid), OK);
    assert_eq!(m, before);
    assert_eq!(pmp_set_global(&pmp, &mut m, 5, 0x7), SBI_ERR_SM_PMP_REGION_INVALID as i32);
    assert_eq!(pmp_unset_global(&pmp, &mut m, -2), SBI_ERR_SM_PMP_REGION_INVALID as i32);
    assert_eq!(m, before);
}

#[test]
fn well_formedness_can_be_checked() {
    let mut pmp = pmp_table::new();
    assert!(pmp.is_wf());
    let mut rid = -1;
    pmp_region_init(&mut pmp, 0x8000_0000, 0x4000, pmp_priority::PMP_PRI_ANY, &mut rid, 0);
    pmp_region_init(&mut pmp, 0x8000_4000, 0x3000, pmp_priority::PMP_PRI_ANY, &mut rid, 0);
    pmp_region_init(&mut pmp, 0, u64::MAX, pmp_priority::PMP_PRI_BOTTOM, &mut rid, 1);
    assert!(pmp.is_wf());
    assert!(pmp.regions[0].is_wf());
    assert!(!pmp.regions[5].is_wf());

    // two regions that forbid overlap and share an address
    let mut bad = pmp;
    bad.regions[1].addr = 0x8000_3000;
    assert!(!bad.is_wf());
    // unless one of them allows it
    bad.regions[1].allow_overlap = 1;
    assert!(bad.is_wf());
    // an empty slot that is not cleared
    let mut bad = pmp;
    bad.regions[9].reg_idx = 1;
    assert!(!bad.is_wf());
    // a register that does not exist
    let mut bad = pmp;
    bad.regions[0].reg_idx = 8;
    assert!(!bad.is_wf());
    // a range that is no multiple of the page size
    let mut bad = pmp;
    bad.regions[0].size = 0x4800;
    assert!(!bad.is_wf());
    // a region that forbids overlap and runs past the top
    let mut bad = pmp;
    bad.regions[0].addr = u64::MAX - 0xfff;
    assert!(!bad.is_wf());
}
