use keystone_sm::crypt::hkdf_sha3::hkdf_sha3_512;
use keystone_sm::enclave::{
    create_enclave, enclave_state, report, run_enclave, sealing_key, STOP_TIMER_INTERRUPT,
};
use keystone_sm::error_code::{
    SBI_ERR_SM_ENCLAVE_EDGE_CALL_HOST, SBI_ERR_SM_ENCLAVE_INTERRUPTED,
    SBI_ERR_SM_ENCLAVE_INVALID_ID, SBI_ERR_SM_ENCLAVE_NOT_DESTROYABLE,
    SBI_ERR_SM_ENCLAVE_NOT_FRESH, SBI_ERR_SM_ENCLAVE_NOT_INITIALIZED,
    SBI_ERR_SM_ENCLAVE_NOT_RESUMABLE, SBI_ERR_SM_ENCLAVE_NOT_RUNNING,
    SBI_ERR_SM_ENCLAVE_PMP_FAILURE, SBI_ERR_SM_ENCLAVE_REGION_OVERLAPS,
    SBI_ERR_SM_ENCLAVE_SUCCESS, SBI_ERR_SM_PMP_REGION_INVALID,
};
use keystone_sm::machine::{hart_state, machine};
use keystone_sm::opensbi::{PMP_A_NAPOT, PMP_A_TOR};
use keystone_sm::pmp::{pmp_region, pmp_table};
use keystone_sm::sbi_trap::sbi_trap_regs;
use keystone_sm::sbi_trap_hack::{
    sbi_trap_handler_keystone_enclave, sbi_trap_info, trap_action,
};
use keystone_sm::sm::{
    keystone_sbi_create, keystone_sbi_pregion, osm_init, osm_pmp_set, runtime_pa_params,
    runtime_va_params_t, security_monitor, sm_copy_key, sm_derive_sealing_key, sm_init,
    sm_init_outcome, sm_keys, smm_init, SMM_BASE, SMM_SIZE,
};
use keystone_sm::sm_sbi::{
    sbi_sm_attest_enclave, sbi_sm_call_plugin, sbi_sm_create_enclave, sbi_sm_destroy_enclave,
    sbi_sm_exit_enclave, sbi_sm_get_sealing_key, sbi_sm_resume_enclave, sbi_sm_run_enclave,
    sbi_sm_stop_enclave,
};

const EPM: u64 = 0x8040_0000;
const EPM_SIZE: u64 = 0x40_0000;
const UTM: u64 = 0x9000_0000;
const UTM_SIZE: u64 = 0x1000;

fn pte(pa: u64, flags: u64) -> u64 {
    ((pa >> 12) << 10) | flags
}

fn args() -> keystone_sbi_create {
    keystone_sbi_create {
        epm_region: keystone_sbi_pregion { paddr: EPM, size: EPM_SIZE },
        utm_region: keystone_sbi_pregion { paddr: UTM, size: UTM_SIZE },
        runtime_paddr: EPM + 0x3000,
        user_paddr: EPM + 0x4000,
        free_paddr: EPM + 0x5000,
        params: runtime_va_params_t {
            runtime_entry: 0xffff_ffff_c000_0000,
            user_entry: 0x1000,
            untrusted_ptr: 0xffff_ffff_8000_0000,
            untrusted_size: UTM_SIZE,
        },
        eid_pptr: 0,
    }
}

fn boot_keys() -> sm_keys {
    let mut k = sm_keys::new();
    k.sm_hash = [1; 64];
    k.sm_signature = [2; 64];
    k.sm_public_key = [3; 32];
    k.sm_private_key = [4; 64];
    k.dev_public_key = [5; 32];
    k
}

fn booted() -> (security_monitor, machine) {
    let mut sm = security_monitor::new();
    let mut m = machine::new();
    m.harts[0].started = true;
    m.host_trap_vector = 0x8000_0100;
    m.enclave_trap_vector = 0x8000_0200;
    m.mem.add_bank(EPM, 0x6000);
    m.mem.add_bank(UTM, UTM_SIZE as usize);
    m.mem.write_u64(EPM + 8 * 511, pte(EPM + 0x1000, 1));
    m.mem.write_u64(EPM + 0x1000 + 8 * 511, pte(EPM + 0x2000, 1));
    m.mem.write_u64(EPM + 0x2000, pte(EPM + 0x3000, 0x0f));
    assert_eq!(sm_init(&mut sm, &mut m, true, &boot_keys()), sm_init_outcome::Ready);
    (sm, m)
}

#[test]
fn new_monitor_has_no_enclave_and_no_region() {
    let sm = security_monitor::new();
    for e in sm.enclaves.iter() {
        assert_eq!(e.state, enclave_state::INVALID);
        assert_eq!(e.n_thread, 0);
    }
    assert_eq!(sm.pmp, pmp_table::new());
    assert_eq!(sm.keys, sm_keys::new());
    assert_eq!(sm.sm_init_done, 0);
    assert_eq!(runtime_pa_params::new().dram_size, 0);
}

#[test]
fn monitor_and_host_regions() {
    let mut pmp = pmp_table::new();
    assert_eq!(smm_init(&mut pmp), 0);
    assert_eq!(
        pmp.regions[0],
        pmp_region {
            size: SMM_SIZE,
            addrmode: PMP_A_NAPOT,
            addr: SMM_BASE,
            allow_overlap: 0,
            reg_idx: 0
        }
    );
    assert_eq!(osm_init(&mut pmp), 1);
    assert_eq!(
        pmp.regions[1],
        pmp_region {
            size: u64::MAX,
            addrmode: PMP_A_NAPOT,
            addr: 0,
            allow_overlap: 1,
            reg_idx: 7
        }
    );
    // the top register is taken now
    let before = pmp;
    assert_eq!(smm_init(&mut pmp), -1);
    assert_eq!(pmp, before);
    // the bottom register is shared
    assert_eq!(osm_init(&mut pmp), 2);
    pmp.region_def_bitmap = 0xffff;
    assert_eq!(osm_init(&mut pmp), -1);
    assert_ne!(PMP_A_TOR, PMP_A_NAPOT);
}

#[test]
fn cold_boot_then_warm_boot() {
    let mut sm = security_monitor::new();
    let mut m = machine::new();
    m.hartid = 1;
    m.harts[1].pmpaddr[3] = 0x55;
    m.harts[1].pmpcfg[0] = u64::MAX;
    // a hart that comes too early waits
    let (sm0, m0) = (sm, m.clone());
    assert_eq!(sm_init(&mut sm, &mut m, false, &boot_keys()), sm_init_outcome::Wait);
    assert_eq!((sm, m.clone()), (sm0, m0));

    m.hartid = 0;
    sm.enclaves[3].state = enclave_state::RUNNING;
    assert_eq!(sm_init(&mut sm, &mut m, true, &boot_keys()), sm_init_outcome::Ready);
    assert_eq!(sm.sm_init_done, 1);
    assert_eq!(sm.sm_region_id, 0);
    assert_eq!(sm.os_region_id, 1);
    assert_eq!(sm.keys, boot_keys());
    assert_eq!(sm.enclaves[3].state, enclave_state::INVALID);
    assert_eq!(sm.pmp.region_def_bitmap, 0b11);
    assert_eq!(sm.pmp.reg_bitmap, 0b1000_0001);
    let h = m.harts[0];
    assert_eq!(h.pmpaddr[0], (SMM_BASE | (SMM_SIZE / 2 - 1)) >> 2);
    assert_eq!(h.pmpaddr[7], u64::MAX);
    assert_eq!(h.pmpcfg[0], 0x1f00_0000_0000_0018);
    assert_eq!(m.harts[1].pmpaddr[3], 0x55);

    m.hartid = 1;
    let sm1 = sm;
    assert_eq!(sm_init(&mut sm, &mut m, false, &sm_keys::new()), sm_init_outcome::Ready);
    assert_eq!(sm, sm1);
    let mut want = m.harts[0];
    want.started = m.harts[1].started;
    assert_eq!(m.harts[1], want);
}

#[test]
fn cold_boot_halts_when_a_region_cannot_be_made() {
    let mut sm = security_monitor::new();
    sm.pmp.reg_bitmap = 1;
    let mut m = machine::new();
    let m0 = m.clone();
    assert_eq!(sm_init(&mut sm, &mut m, true, &boot_keys()), sm_init_outcome::Halt);
    assert_eq!(m, m0);
    assert_eq!(sm.sm_init_done, 0);

    let mut sm = security_monitor::new();
    sm.pmp.region_def_bitmap = 0xfffe;
    assert_eq!(sm_init(&mut sm, &mut m, true, &boot_keys()), sm_init_outcome::Halt);
    assert_eq!(m, m0);
    assert_eq!(sm.sm_init_done, 0);
}

#[test]
fn host_region_is_set_on_one_hart() {
    let (sm, _) = booted();
    let mut hart = hart_state::new();
    assert_eq!(osm_pmp_set(&sm, &mut hart, 0), 0);
    assert_eq!(hart.pmpaddr[7], u64::MAX);
    assert_eq!(hart.pmpcfg[0], 0x1800_0000_0000_0000);
    assert_eq!(osm_pmp_set(&sm, &mut hart, 7), 0);
    assert_eq!(hart.pmpcfg[0], 0x1f00_0000_0000_0000);
    let fresh = security_monitor::new();
    let before = hart;
    assert_eq!(osm_pmp_set(&fresh, &mut hart, 7), SBI_ERR_SM_PMP_REGION_INVALID as i32);
    assert_eq!(hart, before);
}

#[test]
fn keys_are_taken_over() {
    let mut sm = security_monitor::new();
    let before = sm;
    sm_copy_key(&mut sm, &boot_keys());
    assert_eq!(sm.keys, boot_keys());
    sm.keys = sm_keys::new();
    assert_eq!(sm, before);
}

#[test]
fn sealing_key_derivation_uses_no_salt() {
    let keys = boot_keys();
    let mut key = [0u8; 128];
    assert_eq!(sm_derive_sealing_key(&keys, &mut key, b"abcdef", 3, &[7u8; 64]), 0);
    let mut info = vec![7u8; 64];
    info.extend_from_slice(b"abc");
    let mut want = [0u8; 128];
    assert_eq!(hkdf_sha3_512(b"", &keys.sm_private_key, &info, &mut want), 0);
    assert_eq!(key, want);
    let mut long = vec![9u8; 255 * 64 + 1];
    assert_eq!(sm_derive_sealing_key(&keys, &mut long, b"", 0, &[7u8; 64]), -1);
    assert!(long.iter().all(|b| *b == 9));
}

#[test]
fn an_enclave_may_not_lie_in_the_memory_of_the_monitor() {
    let (mut sm, mut m) = booted();
    let mut a = args();
    a.epm_region.paddr = SMM_BASE + 0x10_0000;
    a.epm_region.size = 0x10_0000;
    a.runtime_paddr = a.epm_region.paddr;
    a.user_paddr = a.epm_region.paddr;
    a.free_paddr = a.epm_region.paddr;
    let (sm0, m0) = (sm, m.clone());
    let mut eid = 5;
    assert_eq!(
        sbi_sm_create_enclave(&mut sm, &mut m, &mut eid, Some(a)),
        SBI_ERR_SM_ENCLAVE_PMP_FAILURE
    );
    assert_eq!((sm, m, eid), (sm0, m0, 5));
}

#[test]
fn calls_of_the_host_and_of_the_enclave() {
    let (mut sm, mut m) = booted();
    let mut eid = 5;
    let (sm0, m0) = (sm, m.clone());
    assert_eq!(
        sbi_sm_create_enclave(&mut sm, &mut m, &mut eid, None),
        SBI_ERR_SM_ENCLAVE_REGION_OVERLAPS
    );
    assert_eq!((sm, m.clone(), eid), (sm0, m0, 5));
    assert_eq!(
        sbi_sm_create_enclave(&mut sm, &mut m, &mut eid, Some(args())),
        SBI_ERR_SM_ENCLAVE_SUCCESS
    );
    assert_eq!(eid, 0);
    assert_eq!(sm.enclaves[0].state, enclave_state::FRESH);

    // a call for an enclave that does not exist tells so in a0
    let mut regs = sbi_trap_regs::new();
    regs.mepc = 0x100;
    assert_eq!(sbi_sm_run_enclave(&mut sm, &mut m, &mut regs, 3), 0);
    assert_eq!(regs.a0, SBI_ERR_SM_ENCLAVE_NOT_FRESH as u64);
    assert_eq!(regs.mepc, 0x104);
    assert_eq!(sbi_sm_resume_enclave(&mut sm, &mut m, &mut regs, 3), 0);
    assert_eq!(regs.a0, SBI_ERR_SM_ENCLAVE_NOT_RESUMABLE as u64);
    assert_eq!(regs.mepc, 0x108);
    assert_eq!(sbi_sm_exit_enclave(&mut sm, &mut m, &mut regs, 42), 0);
    assert_eq!(regs.a0, SBI_ERR_SM_ENCLAVE_NOT_RUNNING as u64);
    assert_eq!(regs.a1, 42);
    assert_eq!(regs.mepc, 0x10c);
    assert_eq!(sbi_sm_stop_enclave(&mut sm, &mut m, &mut regs, 1), 0);
    assert_eq!(regs.a0, SBI_ERR_SM_ENCLAVE_NOT_RUNNING as u64);
    assert_eq!(regs.mepc, 0x110);

    // run: the enclave starts at its entry point with success in a0
    regs.mepc = 0x8880_0000;
    regs.s1 = 0x51;
    assert_eq!(sbi_sm_run_enclave(&mut sm, &mut m, &mut regs, eid), 0);
    assert_eq!(regs.a0, SBI_ERR_SM_ENCLAVE_SUCCESS as u64);
    assert_eq!(regs.mepc, 0xffff_ffff_c000_0000);
    assert_eq!(sm.enclaves[0].state, enclave_state::RUNNING);
    assert_eq!(sm.cpus[0].is_enclave, 1);

    // the enclave asks for a report and a sealing key
    let mut rep = report::new();
    assert_eq!(sbi_sm_attest_enclave(&sm, &m, &mut rep, b"nonce", 5), SBI_ERR_SM_ENCLAVE_SUCCESS);
    assert_eq!(&rep.enclave.data[..5], b"nonce");
    assert_eq!(rep.enclave.hash, sm.enclaves[0].hash);
    assert_eq!(rep.sm.public_key, [3; 32]);
    let mut key = sealing_key::new();
    assert_eq!(sbi_sm_get_sealing_key(&sm, &m, &mut key, b"id", 2), SBI_ERR_SM_ENCLAVE_SUCCESS);
    assert_ne!(key.key, [0u8; 128]);

    // the enclave calls the host: the host continues behind its call with the reason in a0
    regs.mepc = 0x2000;
    regs.a0 = 0xeeee;
    assert_eq!(sbi_sm_stop_enclave(&mut sm, &mut m, &mut regs, 1), 0);
    assert_eq!(regs.a0, SBI_ERR_SM_ENCLAVE_EDGE_CALL_HOST as u64);
    assert_eq!(regs.mepc, 0x8880_0004);
    assert_eq!(regs.s1, 0x51);
    assert_eq!(sm.enclaves[0].state, enclave_state::STOPPED);

    // resume: the enclave continues behind its call and keeps its a0 for the return value
    regs.mepc = 0x8880_0100;
    assert_eq!(sbi_sm_resume_enclave(&mut sm, &mut m, &mut regs, eid), 0);
    assert_eq!(regs.zero, 0);
    assert_eq!(regs.a0, SBI_ERR_SM_ENCLAVE_SUCCESS as u64);
    assert_eq!(regs.mepc, 0x2004);

    // a timer interrupt stops it; on resume a0 is left as it was
    regs.a0 = 0x1234;
    regs.mepc = 0x3000;
    assert_eq!(sbi_sm_stop_enclave(&mut sm, &mut m, &mut regs, STOP_TIMER_INTERRUPT), 0);
    assert_eq!(regs.a0, SBI_ERR_SM_ENCLAVE_INTERRUPTED as u64);
    assert_eq!(sbi_sm_resume_enclave(&mut sm, &mut m, &mut regs, eid), 0);
    assert_eq!(regs.zero, 1);
    assert_eq!(regs.a0, 0x1234);
    assert_eq!(regs.mepc, 0x3004);

    // the enclave exits with a value
    assert_eq!(sbi_sm_exit_enclave(&mut sm, &mut m, &mut regs, 77), 0);
    assert_eq!(regs.a0, SBI_ERR_SM_ENCLAVE_SUCCESS as u64);
    assert_eq!(regs.a1, 77);
    assert_eq!(sm.enclaves[0].state, enclave_state::STOPPED);
    assert_eq!(sm.cpus[0].is_enclave, 0);

    assert_eq!(sbi_sm_destroy_enclave(&mut sm, &mut m, eid), SBI_ERR_SM_ENCLAVE_SUCCESS);
    assert_eq!(sbi_sm_destroy_enclave(&mut sm, &mut m, eid), SBI_ERR_SM_ENCLAVE_NOT_DESTROYABLE);
    assert_eq!(sm.enclaves[0].state, enclave_state::INVALID);
    assert_eq!(sm.pmp.region_def_bitmap, 0b11);
    assert_eq!(sbi_sm_attest_enclave(&sm, &m, &mut rep, b"", 0), SBI_ERR_SM_ENCLAVE_NOT_INITIALIZED);
    assert_eq!(sbi_sm_call_plugin(1, 2, 3, 4), 0);
}

#[test]
fn sealing_key_call_needs_a_slot_of_the_table() {
    let (mut sm, m) = booted();
    sm.cpus[0].eid = 16;
    let mut key = sealing_key::new();
    key.signature = [1; 64];
    let before = key;
    assert_eq!(sbi_sm_get_sealing_key(&sm, &m, &mut key, b"id", 2), SBI_ERR_SM_ENCLAVE_INVALID_ID);
    assert_eq!(key, before);
}

#[test]
fn timer_interrupt_stops_the_running_enclave() {
    let (mut sm, mut m) = booted();
    let mut eid = 0;
    assert_eq!(create_enclave(&mut sm, &mut m, &mut eid, args()), SBI_ERR_SM_ENCLAVE_SUCCESS);
    let mut regs = sbi_trap_regs::new();
    regs.mepc = 0x8880_0000;
    assert_eq!(run_enclave(&mut sm, &mut m, &mut regs, eid), SBI_ERR_SM_ENCLAVE_SUCCESS);
    regs.mepc = 0x5000;
    regs.a0 = 0x99;
    for irq in [7u64, 3] {
        m.harts[0].mcause = (1 << 63) | irq;
        assert_eq!(sbi_trap_handler_keystone_enclave(&mut sm, &mut m, &mut regs), trap_action::Done);
        assert_eq!(sm.enclaves[eid].state, enclave_state::STOPPED);
        assert_eq!(regs.a0, SBI_ERR_SM_ENCLAVE_INTERRUPTED as u64);
        assert_eq!(sm.cpus[0].is_enclave, 0);
        // the enclave will continue at the instruction that was interrupted
        assert_eq!(sm.enclaves[eid].threads[0].prev_mepc, 0x5000 - 4);
        let mut back = sbi_trap_regs::new();
        assert_eq!(sbi_sm_resume_enclave(&mut sm, &mut m, &mut back, eid), 0);
        assert_eq!(back.mepc, 0x5000);
        assert_eq!(back.a0, 0x99);
        regs = back;
    }
}

#[test]
fn other_traps_are_left_to_the_firmware() {
    let (mut sm, mut m) = booted();
    let mut regs = sbi_trap_regs::new();
    regs.mepc = 0x700;
    m.harts[0].mtval = 0xbad;
    let cases = [
        (2u64, trap_action::IllegalInstruction { mtval: 0xbad }),
        (4, trap_action::MisalignedLoad { mtval: 0xbad, mtval2: 0, mtinst: 0 }),
        (6, trap_action::MisalignedStore { mtval: 0xbad, mtval2: 0, mtinst: 0 }),
        (9, trap_action::Ecall),
        (11, trap_action::Ecall),
        (
            13,
            trap_action::Redirect {
                trap: sbi_trap_info { epc: 0x700, cause: 13, tval: 0xbad, tval2: 0, tinst: 0 },
            },
        ),
        (
            0,
            trap_action::Redirect {
                trap: sbi_trap_info { epc: 0x700, cause: 0, tval: 0xbad, tval2: 0, tinst: 0 },
            },
        ),
        ((1 << 63) | 11, trap_action::UnhandledInterrupt { mcause: 11 }),
        ((1 << 63) | 5, trap_action::UnhandledInterrupt { mcause: 5 }),
    ];
    for (mcause, want) in cases {
        m.harts[0].mcause = mcause;
        let snapshot = (sm, m.clone(), regs);
        assert_eq!(sbi_trap_handler_keystone_enclave(&mut sm, &mut m, &mut regs), want);
        assert_eq!((sm, m.clone(), regs), snapshot);
    }
    // an interrupt with no enclave running changes only the trap frame
    m.harts[0].mcause = (1 << 63) | 7;
    let (sm0, m0) = (sm, m.clone());
    assert_eq!(sbi_trap_handler_keystone_enclave(&mut sm, &mut m, &mut regs), trap_action::Done);
    assert_eq!((sm, m), (sm0, m0));
    assert_eq!(regs.a0, SBI_ERR_SM_ENCLAVE_INTERRUPTED as u64);
    assert_eq!(regs.mepc, 0x704);
}
