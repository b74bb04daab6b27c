use keystone_sm::cpu::{
    cpu_enter_enclave_context, cpu_exit_enclave_context, cpu_get_enclave_id,
    cpu_is_enclave_context, cpu_state,
};
use keystone_sm::ipi::{sbi_pmp_ipi_local_update, SBI_PMP_IPI_TYPE_SET, SBI_PMP_IPI_TYPE_UNSET};
use keystone_sm::machine::{hart_state, machine, phys_mem, word_from_le, word_to_le, MAX_HARTS};
use keystone_sm::mprv::{copy_is_aligned, copy_next_unit, copy_unit};
use keystone_sm::opensbi::{
    bitmap_zero_except, csr, csr_clear, csr_read, csr_set, csr_write, current_hartid, sbi_hartmask,
    sbi_hsm_hart_started_mask, sbi_memcpy, sbi_memset, sbi_platform_hart_count, sbi_tlb_info,
    spin_lock, spin_unlock, spinlock_t, BITS_TO_LONGS, SBI_ERR_INVALID_PARAM,
    SBI_HARTMASK_INIT_EXCEPT, SPIN_LOCK_INIT, SPIN_LOCK_INITIALIZER, __SPIN_LOCK_UNLOCKED,
    __smp_store_release,
};
use keystone_sm::platform::{
    platform_create_enclave, platform_destroy_enclave, platform_enclave_data,
    platform_init_enclave, platform_init_global, platform_init_global_once,
    platform_switch_from_enclave, platform_switch_to_enclave,
};
use keystone_sm::pmp::{pmp_priority, pmp_region_init, pmp_table};
use keystone_sm::sbi_trap::sbi_trap_regs;
use keystone_sm::thread::{
    clean_state, csrs, ctx, swap_prev_mepc, swap_prev_mstatus, swap_prev_state,
    switch_vector_enclave, switch_vector_host, thread_state,
};

#[test]
fn memory_reads_zero_where_no_bank_is() {
    let mut mem = phys_mem::new();
    assert_eq!(mem.read_u8(0), 0);
    assert_eq!(mem.read_u64(u64::MAX), 0);
    mem.write_u8(0x1000, 7);
    mem.write_u64(0x2000, u64::MAX);
    assert_eq!(mem.read_u8(0x1000), 0);
    assert_eq!(mem.read_range(0x1ffc, 16), vec![0u8; 16]);
    assert_eq!(mem, phys_mem::new());
}

#[test]
fn memory_banks_hold_what_is_written() {
    let mut mem = phys_mem::new();
    mem.add_bank(0x1000, 0x1000);
    mem.add_bank(0x8000, 0x10);
    assert_eq!(mem.banks.len(), 2);
    assert_eq!(mem.banks[0].bytes, vec![0u8; 0x1000]);
    mem.write_u8(0x1000, 1);
    mem.write_u8(0x1fff, 2);
    mem.write_u8(0x2000, 3);
    mem.write_u8(0xfff, 4);
    mem.write_u8(0x800f, 5);
    assert_eq!(mem.read_u8(0x1000), 1);
    assert_eq!(mem.read_u8(0x1fff), 2);
    assert_eq!(mem.read_u8(0x2000), 0);
    assert_eq!(mem.read_u8(0xfff), 0);
    assert_eq!(mem.read_u8(0x800f), 5);
    assert_eq!(mem.read_range(0x1ffe, 4), vec![0, 2, 0, 0]);
    assert_eq!(mem.read_range(0x7fff, 3), vec![0, 0, 0]);
}

#[test]
fn words_are_little_endian() {
    let mut mem = phys_mem::new();
    mem.add_bank(0x1000, 0x20);
    mem.write_u64(0x1008, 0x0102_0304_0506_0708);
    assert_eq!(mem.read_range(0x1008, 8), vec![8, 7, 6, 5, 4, 3, 2, 1]);
    assert_eq!(mem.read_u64(0x1008), 0x0102_0304_0506_0708);
    assert_eq!(mem.read_u64(0x100c), 0x0000_0000_0102_0304);
    // a word that runs out of the bank is cut off
    mem.write_u64(0x101c, 0x1122_3344_5566_7788);
    assert_eq!(mem.read_u64(0x101c), 0x5566_7788);
    assert_eq!(word_to_le(0x0102_0304_0506_0708), [8, 7, 6, 5, 4, 3, 2, 1]);
    assert_eq!(word_from_le(&[8, 7, 6, 5, 4, 3, 2, 1]), 0x0102_0304_0506_0708);
    assert_eq!(word_from_le(&word_to_le(0xdead_beef_0bad_f00d)), 0xdead_beef_0bad_f00d);
}

#[test]
fn first_bank_answers_where_banks_overlap() {
    let mut mem = phys_mem::new();
    mem.add_bank(0x1000, 0x100);
    mem.add_bank(0x1080, 0x100);
    mem.write_u8(0x1090, 9);
    mem.write_u8(0x1110, 8);
    assert_eq!(mem.banks[0].bytes[0x90], 9);
    assert_eq!(mem.banks[1].bytes[0x10], 0);
    assert_eq!(mem.banks[1].bytes[0x90], 8);
    assert_eq!(mem.read_u8(0x1090), 9);
}

#[test]
fn memset_fills_what_is_backed() {
    let mut mem = phys_mem::new();
    mem.add_bank(0x1000, 0x10);
    mem.add_bank(0x2000, 0x10);
    assert_eq!(sbi_memset(&mut mem, 0x1008, 0xaa, 0x1000), 0x1008);
    assert_eq!(mem.read_range(0x1000, 16), [vec![0u8; 8], vec![0xaa; 8]].concat());
    assert_eq!(mem.read_range(0x2000, 16), [vec![0xaa; 8], vec![0u8; 8]].concat());
    assert_eq!(sbi_memset(&mut mem, 0x1000, 1, 0), 0x1000);
    assert_eq!(mem.read_u8(0x1000), 0);
    // a fill at the top of the address space stops there
    let mut top = phys_mem::new();
    top.add_bank(u64::MAX - 3, 4);
    assert_eq!(sbi_memset(&mut top, u64::MAX - 1, 5, 100), u64::MAX - 1);
    assert_eq!(top.read_range(u64::MAX - 3, 4), vec![0, 0, 5, 5]);
}

#[test]
fn memcpy_copies_lowest_address_first() {
    let mut mem = phys_mem::new();
    mem.add_bank(0x1000, 0x20);
    for i in 0..8u64 {
        mem.write_u8(0x1000 + i, 1 + i as u8);
    }
    assert_eq!(sbi_memcpy(&mut mem, 0x1010, 0x1000, 8), 0x1010);
    assert_eq!(mem.read_range(0x1010, 8), vec![1, 2, 3, 4, 5, 6, 7, 8]);
    // overlapping, destination above source: the front repeats
    assert_eq!(sbi_memcpy(&mut mem, 0x1002, 0x1000, 6), 0x1002);
    assert_eq!(mem.read_range(0x1000, 8), vec![1, 2, 1, 2, 1, 2, 1, 2]);
    // overlapping, destination below source
    assert_eq!(sbi_memcpy(&mut mem, 0x1010, 0x1012, 6), 0x1010);
    assert_eq!(mem.read_range(0x1010, 8), vec![3, 4, 5, 6, 7, 8, 7, 8]);
    // reading where no bank is gives zeros, writing there is lost
    assert_eq!(sbi_memcpy(&mut mem, 0x1000, 0x5000, 2), 0x1000);
    assert_eq!(mem.read_range(0x1000, 3), vec![0, 0, 1]);
    assert_eq!(sbi_memcpy(&mut mem, 0x5000, 0x1002, 2), 0x5000);
    assert_eq!(mem.read_u8(0x5000), 0);
}

#[test]
fn machine_starts_out_of_reset() {
    let m = machine::new();
    assert!(m.is_wf());
    assert_eq!(m.hartid, 0);
    assert_eq!(current_hartid(&m), 0);
    assert_eq!(MAX_HARTS, 16);
    for h in m.harts.iter() {
        assert_eq!(*h, hart_state::new());
        assert!(!h.started);
        assert_eq!(h.pmpaddr, [0; 16]);
        assert_eq!(h.pmpcfg, [0; 4]);
    }
    let mut bad = machine::new();
    bad.hartid = 16;
    assert!(!bad.is_wf());
    bad.hartid = 15;
    assert!(bad.is_wf());
    assert_eq!(current_hartid(&bad), 15);
}

#[test]
fn registers_are_read_and_written_by_name() {
    let all = [
        csr::mideleg,
        csr::mip,
        csr::mtvec,
        csr::mscratch,
        csr::mcause,
        csr::mtval,
        csr::sstatus,
        csr::sie,
        csr::stvec,
        csr::scounteren,
        csr::sscratch,
        csr::sepc,
        csr::scause,
        csr::sbadaddr,
        csr::sip,
        csr::satp,
    ];
    let mut hart = hart_state::new();
    for (i, id) in all.iter().enumerate() {
        csr_write(&mut hart, *id, 0x100 + i as u64);
    }
    for (i, id) in all.iter().enumerate() {
        assert_eq!(csr_read(&hart, *id), 0x100 + i as u64);
    }
    assert_eq!(hart.mip, 0x101);
    assert_eq!(hart.satp, 0x10f);
    csr_set(&mut hart, csr::mip, 0x0f0);
    assert_eq!(hart.mip, 0x1f1);
    csr_clear(&mut hart, csr::mip, 0x111);
    assert_eq!(hart.mip, 0x0e0);
    assert_eq!(hart.mideleg, 0x100);
}

#[test]
fn ticket_lock_serves_tickets_in_turn() {
    let mut lock = spinlock_t::new();
    assert_eq!(lock, spinlock_t { owner: 0, next: 0 });
    spin_lock(&mut lock);
    assert_eq!(lock, spinlock_t { owner: 0, next: 1 });
    spin_unlock(&mut lock);
    assert_eq!(lock, spinlock_t { owner: 1, next: 1 });
    let mut wrap = spinlock_t { owner: u16::MAX, next: u16::MAX };
    spin_lock(&mut wrap);
    assert_eq!(wrap, spinlock_t { owner: u16::MAX, next: 0 });
    spin_unlock(&mut wrap);
    assert_eq!(wrap, spinlock_t { owner: 0, next: 0 });
    SPIN_LOCK_INIT(&mut lock);
    assert_eq!(lock, spinlock_t { owner: 0, next: 0 });
    assert_eq!(SPIN_LOCK_INITIALIZER(), lock);
    assert_eq!(__SPIN_LOCK_UNLOCKED(), lock);
    let mut p = 3u16;
    __smp_store_release(&mut p, 9);
    assert_eq!(p, 9);
}

#[test]
fn hart_mask_with_one_hart() {
    assert_eq!(BITS_TO_LONGS(0), 0);
    assert_eq!(BITS_TO_LONGS(1), 1);
    assert_eq!(BITS_TO_LONGS(64), 1);
    assert_eq!(BITS_TO_LONGS(65), 2);
    assert_eq!(BITS_TO_LONGS(128), 2);
    let mut m = sbi_hartmask { bits: [u64::MAX; 2] };
    SBI_HARTMASK_INIT_EXCEPT(&mut m, 5);
    assert_eq!(m.bits, [1 << 5, 0]);
    SBI_HARTMASK_INIT_EXCEPT(&mut m, 64);
    assert_eq!(m.bits, [0, 1]);
    SBI_HARTMASK_INIT_EXCEPT(&mut m, 127);
    assert_eq!(m.bits, [0, 1 << 63]);
    SBI_HARTMASK_INIT_EXCEPT(&mut m, 128);
    assert_eq!(m.bits, [0, 0]);

    let mut bits = [u64::MAX; 2];
    bitmap_zero_except(&mut bits, 3, 10);
    assert_eq!(bits, [8, u64::MAX]);
    let mut bits = [u64::MAX; 2];
    bitmap_zero_except(&mut bits, 10, 10);
    assert_eq!(bits, [0, u64::MAX]);
    let mut bits = [u64::MAX; 2];
    bitmap_zero_except(&mut bits, 63, 64);
    assert_eq!(bits, [1 << 63, u64::MAX]);
    let mut bits = [u64::MAX; 2];
    bitmap_zero_except(&mut bits, 70, 100);
    assert_eq!(bits, [0, 1 << 6]);
    let mut bits = [u64::MAX; 2];
    bitmap_zero_except(&mut bits, 0, 0);
    assert_eq!(bits, [0, u64::MAX]);
}

#[test]
fn started_mask_counts_from_the_base_hart() {
    let mut m = machine::new();
    m.harts[1].started = true;
    m.harts[6].started = true;
    m.harts[8].started = true;
    assert_eq!(sbi_platform_hart_count(), 8);
    let mut mask = u64::MAX;
    assert_eq!(sbi_hsm_hart_started_mask(&m, 0, &mut mask), 0);
    assert_eq!(mask, 0b0100_0010);
    assert_eq!(sbi_hsm_hart_started_mask(&m, 1, &mut mask), 0);
    assert_eq!(mask, 0b0010_0001);
    assert_eq!(sbi_hsm_hart_started_mask(&m, 7, &mut mask), 0);
    assert_eq!(mask, 0);
    mask = 5;
    assert_eq!(sbi_hsm_hart_started_mask(&m, 8, &mut mask), SBI_ERR_INVALID_PARAM);
    assert_eq!(mask, 0);
    mask = 5;
    assert_eq!(sbi_hsm_hart_started_mask(&m, usize::MAX, &mut mask), -3);
    assert_eq!(mask, 0);
}

#[test]
fn a_hart_applies_the_update_it_is_sent() {
    let mut pmp = pmp_table::new();
    let mut rid = -1;
    assert_eq!(
        pmp_region_init(&mut pmp, 0x8000_0000, 0x4000, pmp_priority::PMP_PRI_ANY, &mut rid, 0),
        0
    );
    let mut hart = hart_state::new();
    let mut info = sbi_tlb_info {
        start: SBI_PMP_IPI_TYPE_SET,
        size: 0,
        asid: rid as u64,
        vmid: 0x3,
        smask: sbi_hartmask { bits: [0; 2] },
    };
    sbi_pmp_ipi_local_update(&pmp, &mut hart, &info);
    assert_eq!(hart.pmpaddr[0], (0x8000_0000u64 | 0x1fff) >> 2);
    assert_eq!(hart.pmpcfg[0], 0x1b);
    info.start = SBI_PMP_IPI_TYPE_UNSET;
    sbi_pmp_ipi_local_update(&pmp, &mut hart, &info);
    assert_eq!(hart, hart_state::new());
    // a request for a slot that holds no region does nothing
    info.start = SBI_PMP_IPI_TYPE_SET;
    info.asid = 3;
    sbi_pmp_ipi_local_update(&pmp, &mut hart, &info);
    info.asid = u64::MAX;
    sbi_pmp_ipi_local_update(&pmp, &mut hart, &info);
    assert_eq!(hart, hart_state::new());
}

fn numbered_regs() -> sbi_trap_regs {
    let mut r = sbi_trap_regs::new();
    r.zero = 100;
    r.ra = 101;
    r.sp = 102;
    r.gp = 103;
    r.tp = 104;
    r.t0 = 105;
    r.t1 = 106;
    r.t2 = 107;
    r.s0 = 108;
    r.s1 = 109;
    r.a0 = 110;
    r.a1 = 111;
    r.a2 = 112;
    r.a3 = 113;
    r.a4 = 114;
    r.a5 = 115;
    r.a6 = 116;
    r.a7 = 117;
    r.s2 = 118;
    r.s3 = 119;
    r.s4 = 120;
    r.s5 = 121;
    r.s6 = 122;
    r.s7 = 123;
    r.s8 = 124;
    r.s9 = 125;
    r.s10 = 126;
    r.s11 = 127;
    r.t3 = 128;
    r.t4 = 129;
    r.t5 = 130;
    r.t6 = 131;
    r.mepc = 132;
    r.mstatus = 133;
    r.mstatusH = 134;
    r
}

#[test]
fn swap_state_exchanges_registers_and_supervisor_state() {
    let mut thread = thread_state::new();
    thread.prev_state.slot = 1;
    thread.prev_state.ra = 2;
    thread.prev_state.t6 = 3;
    thread.prev_state.a0 = 4;
    thread.prev_csrs.sstatus = 0x10;
    thread.prev_csrs.sedeleg = 0x11;
    thread.prev_csrs.sideleg = 0x12;
    thread.prev_csrs.satp = 0x13;
    thread.prev_mepc = 0x20;
    let mut regs = numbered_regs();
    let mut hart = hart_state::new();
    hart.sstatus = 0x30;
    hart.sie = 0x31;
    hart.stvec = 0x32;
    hart.scounteren = 0x33;
    hart.sscratch = 0x34;
    hart.sepc = 0x35;
    hart.scause = 0x36;
    hart.sbadaddr = 0x37;
    hart.sip = 0x38;
    hart.satp = 0x39;
    hart.mip = 0x40;
    swap_prev_state(&mut thread, &mut regs, &mut hart, 0);

    let mut want_regs = sbi_trap_regs::new();
    want_regs.zero = 1;
    want_regs.ra = 2;
    want_regs.t6 = 3;
    want_regs.a0 = 4;
    want_regs.mepc = 132;
    want_regs.mstatus = 133;
    want_regs.mstatusH = 134;
    assert_eq!(regs, want_regs);

    let n = numbered_regs();
    assert_eq!(
        thread.prev_state,
        ctx {
            slot: 1,
            ra: n.ra,
            sp: n.sp,
            gp: n.gp,
            tp: n.tp,
            t0: n.t0,
            t1: n.t1,
            t2: n.t2,
            s0: n.s0,
            s1: n.s1,
            a0: n.a0,
            a1: n.a1,
            a2: n.a2,
            a3: n.a3,
            a4: n.a4,
            a5: n.a5,
            a6: n.a6,
            a7: n.a7,
            s2: n.s2,
            s3: n.s3,
            s4: n.s4,
            s5: n.s5,
            s6: n.s6,
            s7: n.s7,
            s8: n.s8,
            s9: n.s9,
            s10: n.s10,
            s11: n.s11,
            t3: n.t3,
            t4: n.t4,
            t5: n.t5,
            t6: n.t6
        }
    );
    assert_eq!(
        thread.prev_csrs,
        csrs {
            sstatus: 0x30,
            sedeleg: 0x11,
            sideleg: 0x12,
            sie: 0x31,
            stvec: 0x32,
            scounteren: 0x33,
            sscratch: 0x34,
            sepc: 0x35,
            scause: 0x36,
            sbadaddr: 0x37,
            sip: 0x38,
            satp: 0x39
        }
    );
    assert_eq!(thread.prev_mepc, 0x20);
    let mut want_hart = hart_state::new();
    want_hart.sstatus = 0x10;
    want_hart.satp = 0x13;
    want_hart.mip = 0x40;
    assert_eq!(hart, want_hart);

    // swapping twice brings both sides back, but for the flag
    swap_prev_state(&mut thread, &mut regs, &mut hart, 7);
    let mut back = numbered_regs();
    back.zero = 1;
    assert_eq!(regs, back);
    assert_eq!(thread.prev_state.slot, 0);
    assert_eq!(thread.prev_state.ra, 2);
    assert_eq!(hart.satp, 0x39);
}

#[test]
fn swap_mepc_and_mstatus() {
    let mut thread = thread_state::new();
    thread.prev_mepc = 0x1000;
    thread.prev_mstatus = 0x0000_0000_0000_1800;
    let mut regs = numbered_regs();
    let regs0 = regs;
    let thread0 = thread;
    swap_prev_mepc(&mut thread, &mut regs, 0x2000);
    assert_eq!(thread.prev_mepc, 0x2000);
    assert_eq!(regs.mepc, 0x1000);
    swap_prev_mstatus(&mut thread, &mut regs, 0xffff_ffff_ffff_ffff);
    assert_eq!(thread.prev_mstatus, 0xffff_ffff_ffff_ffff);
    assert_eq!(regs.mstatus, 0xffff_ffff_fff3_86dd | 0x1800);
    let mut want = regs0;
    want.mepc = 0x1000;
    want.mstatus = 0xffff_ffff_fff3_9edd;
    assert_eq!(regs, want);
    let mut want = thread0;
    want.prev_mepc = 0x2000;
    want.prev_mstatus = u64::MAX;
    assert_eq!(thread, want);
}

#[test]
fn clean_state_keeps_only_the_counter_enable() {
    let mut thread = thread_state::new();
    thread.prev_state.a0 = 5;
    thread.prev_csrs.satp = 6;
    thread.prev_csrs.sedeleg = 7;
    thread.prev_mepc = 8;
    thread.prev_mstatus = 9;
    let mut hart = hart_state::new();
    hart.scounteren = 0x1f;
    hart.satp = 0x99;
    clean_state(&mut thread, &hart);
    let mut want = thread_state::new();
    want.prev_mpp = -1;
    want.prev_csrs.scounteren = 0x1f;
    want.prev_mepc = 8;
    want.prev_mstatus = 9;
    assert_eq!(thread, want);
    assert_eq!(thread_state::new().prev_state, ctx::new());
    assert_eq!(thread_state::new().prev_csrs, csrs::new());
}

#[test]
fn trap_vector_follows_the_side_that_runs() {
    let mut m = machine::new();
    m.hartid = 2;
    m.host_trap_vector = 0x100;
    m.enclave_trap_vector = 0x200;
    let before = m.clone();
    switch_vector_enclave(&mut m);
    assert_eq!(m.harts[2].mtvec, 0x200);
    switch_vector_host(&mut m);
    assert_eq!(m.harts[2].mtvec, 0x100);
    let mut want = before;
    want.harts[2].mtvec = 0x100;
    assert_eq!(m, want);
}

#[test]
fn each_hart_has_its_own_record() {
    let mut cpus = [cpu_state::new(); 16];
    let mut m = machine::new();
    assert_eq!(cpu_is_enclave_context(&cpus, &m), 0);
    m.hartid = 3;
    cpu_enter_enclave_context(&mut cpus, &m, 9);
    assert_eq!(cpu_is_enclave_context(&cpus, &m), 1);
    assert_eq!(cpu_get_enclave_id(&cpus, &m), 9);
    m.hartid = 4;
    assert_eq!(cpu_is_enclave_context(&cpus, &m), 0);
    assert_eq!(cpu_get_enclave_id(&cpus, &m), 0);
    m.hartid = 3;
    cpu_exit_enclave_context(&mut cpus, &m);
    assert_eq!(cpus[3], cpu_state { is_enclave: 0, eid: 9 });
    for (h, c) in cpus.iter().enumerate() {
        if h != 3 {
            assert_eq!(*c, cpu_state::new());
        }
    }
}

#[test]
fn platform_hooks_succeed_and_change_nothing() {
    let mut e = keystone_sm::enclave::enclave::new();
    e.eid = 3;
    let before = e;
    assert_eq!(platform_create_enclave(&mut e), 0);
    platform_destroy_enclave(&mut e);
    platform_init_enclave(&mut e);
    platform_switch_from_enclave(&mut e);
    platform_switch_to_enclave(&mut e);
    assert_eq!(e, before);
    assert_eq!(platform_init_global(), 0);
    assert_eq!(platform_init_global_once(), 0);
    assert_eq!(platform_enclave_data::new(), e.ped);
}

#[test]
fn copies_go_by_blocks_words_and_bytes() {
    assert!(copy_is_aligned(0x1000, 0x2008));
    assert!(!copy_is_aligned(0x1001, 0x2008));
    assert!(!copy_is_aligned(0x1000, 0x2004));
    assert_eq!(copy_next_unit(true, 0), None);
    assert_eq!(copy_next_unit(false, 0), None);
    assert_eq!(copy_next_unit(true, 200), Some(copy_unit::Block));
    assert_eq!(copy_next_unit(true, 64), Some(copy_unit::Block));
    assert_eq!(copy_next_unit(true, 63), Some(copy_unit::Word));
    assert_eq!(copy_next_unit(true, 8), Some(copy_unit::Word));
    assert_eq!(copy_next_unit(true, 7), Some(copy_unit::Byte));
    assert_eq!(copy_next_unit(false, 200), Some(copy_unit::Byte));
    assert_eq!(copy_unit::Block.size(), 64);
    assert_eq!(copy_unit::Word.size(), 8);
    assert_eq!(copy_unit::Byte.size(), 1);
    // 200 bytes: three blocks, one word
    let mut len = 200u64;
    let mut steps = Vec::new();
    while let Some(u) = copy_next_unit(true, len) {
        steps.push(u);
        len -= u.size();
    }
    assert_eq!(
        steps,
        vec![copy_unit::Block, copy_unit::Block, copy_unit::Block, copy_unit::Word]
    );
}
