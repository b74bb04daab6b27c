//! The enclave table and the operations that take an enclave through its life.
use vstd::prelude::*;
use crate::attest::{enclave_env, measurement, validate_and_hash_enclave};
use crate::cpu::{cpu_enter_enclave_context, cpu_exit_enclave_context, cpu_state};
use crate::crypt::hkdf_sha3::hkdf_byte;
use crate::crypto::SIGNATURE_SIZE;
use crate::error_code::{
    SBI_ERR_SM_ENCLAVE_EDGE_CALL_HOST,
    SBI_ERR_SM_ENCLAVE_ILLEGAL_ARGUMENT,
    SBI_ERR_SM_ENCLAVE_ILLEGAL_PTE,
    SBI_ERR_SM_ENCLAVE_INTERRUPTED,
    SBI_ERR_SM_ENCLAVE_NO_FREE_RESOURCE,
    SBI_ERR_SM_ENCLAVE_NOT_ACCESSIBLE,
    SBI_ERR_SM_ENCLAVE_NOT_DESTROYABLE,
    SBI_ERR_SM_ENCLAVE_NOT_FRESH,
    SBI_ERR_SM_ENCLAVE_NOT_INITIALIZED,
    SBI_ERR_SM_ENCLAVE_NOT_RESUMABLE,
    SBI_ERR_SM_ENCLAVE_NOT_RUNNING,
    SBI_ERR_SM_ENCLAVE_PMP_FAILURE,
    SBI_ERR_SM_ENCLAVE_SUCCESS,
    SBI_ERR_SM_ENCLAVE_UNKNOWN_ERROR,
    SBI_ERR_SM_PMP_SUCCESS,
};
use crate::ipi::broadcast_harts;
use crate::machine::{hart_state, le_bytes, machine, phys_mem, same_layout, word_to_le};
use crate::opensbi::{
    csr,
    csr_clear,
    csr_read,
    csr_set,
    csr_write,
    HGATP_MODE_SHIFT,
    MIP_MEIP,
    MIP_MSIP,
    MIP_MTIP,
    MIP_SEIP,
    MIP_SSIP,
    MIP_STIP,
    MSTATUS_MPP_SHIFT,
    SATP_MODE_SV39,
    sbi_memset,
};
use crate::page::RISCV_PGSHIFT;
use crate::platform::{
    platform_create_enclave,
    platform_destroy_enclave,
    platform_enclave_data,
    platform_init_enclave,
    platform_switch_from_enclave,
    platform_switch_to_enclave,
};
use crate::pmp::{
    lemma_after_free,
    lemma_after_init,
    lemma_free_undoes_init,
    PMP_ALL_PERM,
    PMP_NO_PERM,
    pmp_priority,
    pmp_region_free_atomic,
    pmp_region_get_addr,
    pmp_region_get_size,
    pmp_region_init_atomic,
    pmp_set_global,
    pmp_set_keystone,
    pmp_table,
    pmp_unset_global,
    region_id,
};
use crate::sbi_trap::sbi_trap_regs;
use crate::sm::{
    keystone_sbi_create,
    runtime_pa_params,
    runtime_va_params_t,
    sealing_info,
    security_monitor,
    sm_derive_sealing_key,
    sm_keys,
};
use crate::thread::{
    clean_state,
    csrs,
    ctx,
    hart_csrs,
    hart_with_csrs,
    MSTATUS_SWAP_MASK,
    regs_ctx,
    regs_with_ctx,
    swap_prev_mepc,
    swap_prev_mstatus,
    swap_prev_state,
    switch_vector_enclave,
    switch_vector_host,
    thread_state,
    zero_csrs,
    zero_ctx,
};

verus! {

pub type enclave_id = usize;

pub const ENCLAVE_REGIONS_MAX: usize = 8;

pub const MAX_ENCL_THREADS: usize = 1;

pub const ENCL_MAX: usize = 16;

pub const STOP_TIMER_INTERRUPT: u64 = 0;

pub const STOP_EDGE_CALL_HOST: u64 = 1;

pub const STOP_EXIT_ENCLAVE: u64 = 2;

pub const ATTEST_DATA_MAXLEN: usize = 1024;

pub const SEALING_KEY_SIZE: usize = 128;

/// What a memory region is to its enclave.
#[derive(Clone, Copy, PartialEq, Eq, Structural, Debug)]
pub enum enclave_region_type {
    /// An unused index.
    REGION_INVALID,
    /// The private memory: the home of the enclave, with its code and page tables.
    REGION_EPM,
    /// The untrusted memory shared with the host.
    REGION_UTM,
    /// Managed by some other component.
    REGION_OTHER,
}

/// Where an enclave is in its life.
#[derive(Clone, Copy, PartialEq, Eq, Structural, Debug)]
pub enum enclave_state {
    INVALID,
    DESTROYING,
    ALLOCATED,
    FRESH,
    STOPPED,
    RUNNING,
}

impl enclave_state {
    /// The place of the state in the order of states.
    pub open spec fn rank(&self) -> int {
        match self {
            enclave_state::INVALID => -1,
            enclave_state::DESTROYING => 0,
            enclave_state::ALLOCATED => 1,
            enclave_state::FRESH => 2,
            enclave_state::STOPPED => 3,
            enclave_state::RUNNING => 4,
        }
    }

    /// The place of the state in the order of states.
    pub fn order(&self) -> (r: i32)
        ensures
            r == self.rank(),
    {
        match self {
            enclave_state::INVALID => -1,
            enclave_state::DESTROYING => 0,
            enclave_state::ALLOCATED => 1,
            enclave_state::FRESH => 2,
            enclave_state::STOPPED => 3,
            enclave_state::RUNNING => 4,
        }
    }
}

/// One memory region of an enclave.
#[derive(Clone, Copy, PartialEq, Eq, Structural, Debug)]
pub struct enclave_region {
    pub pmp_rid: region_id,
    pub region_type: enclave_region_type,
}

impl enclave_region {
    pub fn new() -> (r: Self)
        ensures
            r == (enclave_region { pmp_rid: 0, region_type: enclave_region_type::REGION_INVALID }),
    {
        enclave_region { pmp_rid: 0, region_type: enclave_region_type::REGION_INVALID }
    }
}

/// One slot of the enclave table.
#[derive(Clone, Copy, PartialEq, Eq, Debug)]
pub struct enclave {
    /// enclave id
    pub eid: enclave_id,
    /// enclave's page table base
    pub encl_satp: u64,
    /// global state of the enclave
    pub state: enclave_state,
    /// Physical memory regions associate with this enclave
    pub regions: [enclave_region; 8],
    /// measurement
    pub hash: [u8; 64],
    pub sign: [u8; 64],
    /// parameters
    pub params: runtime_va_params_t,
    pub pa_params: runtime_pa_params,
    /// enclave execution context
    pub n_thread: usize,
    pub threads: [thread_state; 1],
    pub ped: platform_enclave_data,
}

/// The first index from `k` on at which `regions` holds a region of type
/// `entype`, or -1.
pub open spec fn first_region_of(regions: Seq<enclave_region>, entype: enclave_region_type, k: int) -> int
    decreases regions.len() - k,
{
    if k < 0 || k >= regions.len() {
        -1
    } else if regions[k].region_type == entype {
        k
    } else {
        first_region_of(regions, entype, k + 1)
    }
}

impl enclave {
    /// The thread count fits the state: a running enclave has at least one
    /// thread and at most `MAX_ENCL_THREADS`, any other has none.
    pub open spec fn wf(&self) -> bool {
        if self.state == enclave_state::RUNNING {
            1 <= self.n_thread <= MAX_ENCL_THREADS
        } else {
            self.n_thread == 0
        }
    }

    /// The index of the enclave's first region of type `entype`, or -1.
    pub open spec fn region_index(&self, entype: enclave_region_type) -> int {
        first_region_of(self.regions@, entype, 0)
    }

    /// A slot with nothing in it but the state `FRESH`.
    pub fn new() -> (r: Self)
        ensures
            r.eid == 0,
            r.encl_satp == 0,
            r.state == enclave_state::FRESH,
            forall|i: int| 0 <= i < 8 ==> r.regions[i] == (enclave_region {
                pmp_rid: 0,
                region_type: enclave_region_type::REGION_INVALID,
            }),
            forall|i: int| 0 <= i < 64 ==> r.hash[i] == 0 && r.sign[i] == 0,
            r.params == (runtime_va_params_t {
                runtime_entry: 0,
                user_entry: 0,
                untrusted_ptr: 0,
                untrusted_size: 0,
            }),
            r.pa_params == (runtime_pa_params {
                dram_base: 0,
                dram_size: 0,
                runtime_base: 0,
                user_base: 0,
                free_base: 0,
            }),
            r.n_thread == 0,
            r.threads[0].prev_mpp == 0 && r.threads[0].prev_mepc == 0 && r.threads[0].prev_mstatus
                == 0,
            r.threads[0].prev_csrs == crate::thread::zero_csrs(),
            r.threads[0].prev_state == crate::thread::zero_ctx(),
            r.wf(),
    {
        enclave {
            eid: 0,
            encl_satp: 0,
            state: enclave_state::FRESH,
            regions: [enclave_region::new(); 8],
            hash: [0; 64],
            sign: [0; 64],
            params: runtime_va_params_t::new(),
            pa_params: runtime_pa_params::new(),
            n_thread: 0,
            threads: [thread_state::new(); 1],
            ped: platform_enclave_data::new(),
        }
    }

    /// The index of the enclave's first region of type `entype`, or -1.
    pub fn find_region(&self, entype: enclave_region_type) -> (r: i32)
        ensures
            r == self.region_index(entype),
            -1 <= r < ENCLAVE_REGIONS_MAX,
            r >= 0 ==> self.regions[r as int].region_type == entype,
    {
        let mut i: usize = 0;
        while i < ENCLAVE_REGIONS_MAX
            invariant
                i <= ENCLAVE_REGIONS_MAX,
                self.region_index(entype) == first_region_of(self.regions@, entype, i as int),
            decreases ENCLAVE_REGIONS_MAX - i,
        {
            if self.regions[i].region_type == entype {
                return i as i32;
            }
            i += 1;
        }
        -1
    }
}

/// The index of the first region of type `entype` of enclave `eid`, or -1 if
/// it has none or the table has no slot `eid`.
pub fn get_enclave_region_index(
    enclaves: &[enclave; 16],
    eid: enclave_id,
    entype: enclave_region_type,
) -> (r: i32)
    ensures
        r == if eid < ENCL_MAX { enclaves[eid as int].region_index(entype) } else { -1 },
        -1 <= r < ENCLAVE_REGIONS_MAX,
{
    if eid >= ENCL_MAX {
        return -1;
    }
    enclaves[eid].find_region(entype)
}

impl security_monitor {
    /// The allocator is well formed and so is every slot of the enclave table.
    pub open spec fn wf(&self) -> bool {
        &&& self.pmp.wf()
        &&& forall|eid: int| 0 <= eid < ENCL_MAX ==> (#[trigger] self.enclaves[eid]).wf()
    }

    /// Whether slot `eid` of the table holds an enclave.
    pub open spec fn enclave_exists(&self, eid: int) -> bool {
        0 <= eid < ENCL_MAX && self.enclaves[eid].state != enclave_state::INVALID
    }

    /// Whether enclave `eid` may be entered for the first time: it exists and is fresh.
    pub open spec fn runnable(&self, eid: int) -> bool {
        self.enclave_exists(eid) && self.enclaves[eid].state == enclave_state::FRESH
    }

    /// Whether enclave `eid` runs.
    pub open spec fn running(&self, eid: int) -> bool {
        0 <= eid < ENCL_MAX && self.enclaves[eid].state == enclave_state::RUNNING
    }

    /// Whether enclave `eid` may be entered again: it exists, runs or is
    /// stopped, and has room for a thread.
    pub open spec fn resumable(&self, eid: int) -> bool {
        &&& self.enclave_exists(eid)
        &&& (self.enclaves[eid].state == enclave_state::RUNNING || self.enclaves[eid].state
            == enclave_state::STOPPED)
        &&& self.enclaves[eid].n_thread < MAX_ENCL_THREADS
    }

    /// Whether enclave `eid` may be destroyed: it exists and does not run.
    pub open spec fn destroyable(&self, eid: int) -> bool {
        self.enclave_exists(eid) && self.enclaves[eid].state.rank()
            <= enclave_state::STOPPED.rank()
    }

    /// Whether enclave `eid` can be attested: it exists and has been measured.
    pub open spec fn attestable(&self, eid: int) -> bool {
        self.enclave_exists(eid) && self.enclaves[eid].state.rank() >= enclave_state::FRESH.rank()
    }

    /// The monitor with slot `eid` of the table replaced by `e`.
    pub open spec fn with_enclave(&self, eid: int, e: enclave) -> security_monitor {
        security_monitor { enclaves: vstd::array::spec_array_update(self.enclaves, eid, e), ..*self }
    }
}

fn enclave_exists(enclaves: &[enclave; 16], eid: usize) -> (r: bool)
    ensures
        r == (eid < ENCL_MAX && enclaves[eid as int].state != enclave_state::INVALID),
{
    eid < ENCL_MAX && enclaves[eid].state.order() >= 0
}

/// What a thread slot keeps when the side in `regs` and `hart` is put away:
/// its general registers, with the flag for a return value in the place of
/// the zero register, its supervisor registers, its program counter and its status.
pub open spec fn thread_swapped(
    thread: thread_state,
    regs: sbi_trap_regs,
    hart: hart_state,
    return_on_resume: u64,
) -> thread_state {
    thread_state {
        prev_mpp: thread.prev_mpp,
        prev_mepc: regs.mepc,
        prev_mstatus: regs.mstatus,
        prev_csrs: hart_csrs(hart, thread.prev_csrs),
        prev_state: ctx { slot: if return_on_resume == 0 { 1 } else { 0 }, ..regs_ctx(regs) },
    }
}

/// The trap frame after the side that `thread` kept has been brought back.
pub open spec fn regs_swapped(thread: thread_state, regs: sbi_trap_regs) -> sbi_trap_regs {
    sbi_trap_regs {
        mepc: thread.prev_mepc,
        mstatus: (regs.mstatus & !MSTATUS_SWAP_MASK) | thread.prev_mstatus,
        ..regs_with_ctx(regs, thread.prev_state)
    }
}

/// Exchanges the side that runs, in `regs` and `hart`, with the side that `thread` keeps.
fn swap_sides(
    thread: &mut thread_state,
    regs: &mut sbi_trap_regs,
    hart: &mut hart_state,
    return_on_resume: u64,
)
    ensures
        *final(thread) == thread_swapped(*old(thread), *old(regs), *old(hart), return_on_resume),
        *final(regs) == regs_swapped(*old(thread), *old(regs)),
        *final(hart) == hart_with_csrs(*old(hart), old(thread).prev_csrs),
{
    swap_prev_state(thread, regs, hart, return_on_resume);
    let mepc = regs.mepc;
    swap_prev_mepc(thread, regs, mepc);
    let mstatus = regs.mstatus;
    swap_prev_mstatus(thread, regs, mstatus);
}

/// `hart` with each of the first `n` regions in `regions` that is in use
/// programmed, in turn, to grant `perm`.
pub open spec fn hart_regions_set(
    pmp: pmp_table,
    regions: Seq<enclave_region>,
    hart: hart_state,
    perm: u8,
    n: nat,
) -> hart_state
    decreases n,
{
    if n == 0 {
        hart
    } else {
        let prev = hart_regions_set(pmp, regions, hart, perm, (n - 1) as nat);
        if regions[n - 1].region_type != enclave_region_type::REGION_INVALID {
            pmp.hart_after_set(prev, regions[n - 1].pmp_rid as int, perm)
        } else {
            prev
        }
    }
}

fn set_enclave_regions(pmp: &pmp_table, e: &enclave, hart: &mut hart_state, perm: u8)
    requires
        pmp.wf(),
    ensures
        *final(hart) == hart_regions_set(
            *pmp,
            e.regions@,
            *old(hart),
            perm,
            ENCLAVE_REGIONS_MAX as nat,
        ),
{
    let mut memid: usize = 0;
    while memid < ENCLAVE_REGIONS_MAX
        invariant
            memid <= ENCLAVE_REGIONS_MAX,
            pmp.wf(),
            *hart == hart_regions_set(*pmp, e.regions@, *old(hart), perm, memid as nat),
        decreases ENCLAVE_REGIONS_MAX - memid,
    {
        if e.regions[memid].region_type != enclave_region_type::REGION_INVALID {
            pmp_set_keystone(pmp, hart, e.regions[memid].pmp_rid, perm);
        }
        memid += 1;
    }
}

/// The program counter put into the trap frame for a first entry: the
/// return from the call adds 4 to it, which gives `runtime_entry`.
pub open spec fn entry_mepc(runtime_entry: u64) -> u64 {
    if runtime_entry >= 4 {
        (runtime_entry - 4) as u64
    } else {
        (runtime_entry + 0x1_0000_0000_0000_0000 - 4) as u64
    }
}

/// The trap frame with which enclave `e` is entered from the host side in
/// `regs`: the side that the enclave's thread kept, and on a first entry
/// (`load`) the entry point, supervisor mode, and the enclave's layout in
/// the argument registers.
pub open spec fn regs_entering(e: enclave, regs: sbi_trap_regs, load: bool) -> sbi_trap_regs {
    let swapped = regs_swapped(e.threads[0], regs);
    if load {
        sbi_trap_regs {
            mepc: entry_mepc(e.params.runtime_entry),
            mstatus: 0x800,
            a1: e.pa_params.dram_base,
            a2: e.pa_params.dram_size,
            a3: e.pa_params.runtime_base,
            a4: e.pa_params.user_base,
            a5: e.pa_params.free_base,
            a6: e.params.untrusted_ptr,
            a7: e.params.untrusted_size,
            ..swapped
        }
    } else {
        swapped
    }
}

/// The hart that enters enclave `e`: the supervisor registers that the
/// enclave's thread kept, no interrupt delegated, on a first entry (`load`)
/// the user entry point and the enclave's page table, the enclave-time trap
/// vector, no access to the host's region, and full access to the
/// enclave's regions.
pub open spec fn hart_entering(
    pmp: pmp_table,
    os_region_id: i32,
    e: enclave,
    hart: hart_state,
    load: bool,
    trap_vector: u64,
) -> hart_state {
    let h1 = hart_with_csrs(hart, e.threads[0].prev_csrs).with_csr(csr::mideleg, 0);
    let h2 = if load {
        h1.with_csr(csr::sepc, e.params.user_entry).with_csr(csr::satp, e.encl_satp)
    } else {
        h1
    };
    let h3 = h2.with_csr(csr::mtvec, trap_vector);
    let h4 = pmp.hart_after_set(h3, os_region_id as int, PMP_NO_PERM);
    hart_regions_set(pmp, e.regions@, h4, PMP_ALL_PERM, ENCLAVE_REGIONS_MAX as nat)
}

/// The monitor after the executing hart has entered enclave `eid` from the
/// host side in `regs`: the enclave's thread keeps the host side, and the
/// hart is recorded as running the enclave.
pub open spec fn monitor_entering(
    sm: security_monitor,
    m: machine,
    regs: sbi_trap_regs,
    eid: int,
) -> security_monitor {
    let e = sm.enclaves[eid];
    security_monitor {
        enclaves: vstd::array::spec_array_update(
            sm.enclaves,
            eid,
            enclave {
                threads: vstd::array::spec_array_update(
                    e.threads,
                    0,
                    thread_swapped(e.threads[0], regs, m.harts[m.hartid as int], 1),
                ),
                ..e
            },
        ),
        cpus: vstd::array::spec_array_update(
            sm.cpus,
            m.hartid as int,
            cpu_state { is_enclave: 1, eid: eid as usize },
        ),
        ..sm
    }
}

/// The machine after the executing hart has entered enclave `eid`.
pub open spec fn machine_entering(sm: security_monitor, m: machine, eid: int, load: bool) -> machine {
    machine {
        harts: vstd::array::spec_array_update(
            m.harts,
            m.hartid as int,
            hart_entering(
                sm.pmp,
                sm.os_region_id,
                sm.enclaves[eid],
                m.harts[m.hartid as int],
                load,
                m.enclave_trap_vector,
            ),
        ),
        ..m
    }
}

/// Puts the host side away in the thread of enclave `eid` and sets the
/// executing hart up for the enclave; with `load_parameters`, for its first entry.
fn context_switch_to_enclave(
    sm: &mut security_monitor,
    m: &mut machine,
    regs: &mut sbi_trap_regs,
    eid: enclave_id,
    load_parameters: i32,
)
    requires
        old(sm).pmp.wf(),
        old(m).wf(),
        eid < ENCL_MAX,
    ensures
        *final(sm) == monitor_entering(*old(sm), *old(m), *old(regs), eid as int),
        *final(m) == machine_entering(*old(sm), *old(m), eid as int, load_parameters != 0),
        *final(regs) == regs_entering(old(sm).enclaves[eid as int], *old(regs), load_parameters != 0),
{
    broadcast use vstd::array::group_array_axioms;

    let h = m.hartid;
    let ghost e0 = sm.enclaves[eid as int];
    /* save host context */
    swap_sides(&mut sm.enclaves[eid].threads[0], regs, &mut m.harts[h], 1);

    let interrupts: u64 = 0;
    csr_write(&mut m.harts[h], csr::mideleg, interrupts);

    if load_parameters != 0 {
        // passing parameters for a first run
        csr_write(&mut m.harts[h], csr::sepc, sm.enclaves[eid].params.user_entry);
        // regs.mepc will be +4 before the call returns
        regs.mepc = sm.enclaves[eid].params.runtime_entry.wrapping_sub(4);
        regs.mstatus = 1u64 << MSTATUS_MPP_SHIFT;
        assert(1u64 << 11u64 == 0x800) by (bit_vector);
        // $a1: (PA) DRAM base,
        regs.a1 = sm.enclaves[eid].pa_params.dram_base;
        // $a2: (PA) DRAM size,
        regs.a2 = sm.enclaves[eid].pa_params.dram_size;
        // $a3: (PA) kernel location,
        regs.a3 = sm.enclaves[eid].pa_params.runtime_base;
        // $a4: (PA) user location,
        regs.a4 = sm.enclaves[eid].pa_params.user_base;
        // $a5: (PA) freemem location,
        regs.a5 = sm.enclaves[eid].pa_params.free_base;
        // $a6: (VA) utm base,
        regs.a6 = sm.enclaves[eid].params.untrusted_ptr;
        // $a7: (usize) utm size
        regs.a7 = sm.enclaves[eid].params.untrusted_size;

        // switch to the initial enclave page table
        csr_write(&mut m.harts[h], csr::satp, sm.enclaves[eid].encl_satp);
    }
    switch_vector_enclave(m);

    // set PMP
    pmp_set_keystone(&sm.pmp, &mut m.harts[h], sm.os_region_id, PMP_NO_PERM);
    set_enclave_regions(&sm.pmp, &sm.enclaves[eid], &mut m.harts[h], PMP_ALL_PERM);

    // Setup any platform specific defenses
    platform_switch_to_enclave(&mut sm.enclaves[eid]);
    cpu_enter_enclave_context(&mut sm.cpus, m, eid);

    proof {
        let want_sm = monitor_entering(*old(sm), *old(m), *old(regs), eid as int);
        assert(sm.enclaves[eid as int].threads =~= want_sm.enclaves[eid as int].threads);
        assert(sm.enclaves[eid as int] == want_sm.enclaves[eid as int]);
        assert(sm.enclaves =~= want_sm.enclaves);
        let want_m = machine_entering(*old(sm), *old(m), eid as int, load_parameters != 0);
        assert(sm.enclaves[eid as int].regions == e0.regions);
        assert(m.harts[h as int] == want_m.harts[h as int]);
        assert(m.harts =~= want_m.harts);
    }
}

/// The pending-interrupt register after the machine-level interrupts that
/// were pending have been handed to the supervisor: timer, software and
/// external, each cleared at machine level and set at supervisor level.
pub open spec fn mip_forwarded(mip: u64) -> u64 {
    let a = if mip & MIP_MTIP != 0 {
        (mip & !MIP_MTIP) | MIP_STIP
    } else {
        mip
    };
    let b = if mip & MIP_MSIP != 0 {
        (a & !MIP_MSIP) | MIP_SSIP
    } else {
        a
    };
    if mip & MIP_MEIP != 0 {
        (b & !MIP_MEIP) | MIP_SEIP
    } else {
        b
    }
}

/// The hart that leaves enclave `e` for the host: no access to the
/// enclave's regions, full access to the host's region, the supervisor
/// interrupts delegated, the supervisor registers that the enclave's thread
/// kept for the host, the host's trap vector, and pending machine
/// interrupts handed to the supervisor.
pub open spec fn hart_leaving(
    pmp: pmp_table,
    os_region_id: i32,
    e: enclave,
    hart: hart_state,
    trap_vector: u64,
) -> hart_state {
    let h1 = hart_regions_set(pmp, e.regions@, hart, PMP_NO_PERM, ENCLAVE_REGIONS_MAX as nat);
    let h2 = pmp.hart_after_set(h1, os_region_id as int, PMP_ALL_PERM);
    let h3 = h2.with_csr(csr::mideleg, MIP_SSIP | MIP_STIP | MIP_SEIP);
    let h4 = hart_with_csrs(h3, e.threads[0].prev_csrs);
    let h5 = h4.with_csr(csr::mtvec, trap_vector);
    h5.with_csr(csr::mip, mip_forwarded(h5.mip))
}

/// The supervisor side of the hart at the moment the enclave's side is put away.
pub open spec fn hart_before_swap_out(pmp: pmp_table, os_region_id: i32, e: enclave, hart: hart_state) -> hart_state {
    let h1 = hart_regions_set(pmp, e.regions@, hart, PMP_NO_PERM, ENCLAVE_REGIONS_MAX as nat);
    let h2 = pmp.hart_after_set(h1, os_region_id as int, PMP_ALL_PERM);
    h2.with_csr(csr::mideleg, MIP_SSIP | MIP_STIP | MIP_SEIP)
}

/// The monitor after the executing hart has left enclave `eid` with the
/// enclave side in `regs`: the enclave's thread keeps the enclave side, and
/// the hart is recorded as running the host.
pub open spec fn monitor_leaving(
    sm: security_monitor,
    m: machine,
    regs: sbi_trap_regs,
    eid: int,
    return_on_resume: bool,
) -> security_monitor {
    let e = sm.enclaves[eid];
    security_monitor {
        enclaves: vstd::array::spec_array_update(
            sm.enclaves,
            eid,
            enclave {
                threads: vstd::array::spec_array_update(
                    e.threads,
                    0,
                    thread_swapped(
                        e.threads[0],
                        regs,
                        hart_before_swap_out(sm.pmp, sm.os_region_id, e, m.harts[m.hartid as int]),
                        if return_on_resume { 1 } else { 0 },
                    ),
                ),
                ..e
            },
        ),
        cpus: vstd::array::spec_array_update(
            sm.cpus,
            m.hartid as int,
            cpu_state { is_enclave: 0, eid: sm.cpus[m.hartid as int].eid },
        ),
        ..sm
    }
}

/// The machine after the executing hart has left enclave `eid` for the host.
pub open spec fn machine_leaving(sm: security_monitor, m: machine, eid: int) -> machine {
    machine {
        harts: vstd::array::spec_array_update(
            m.harts,
            m.hartid as int,
            hart_leaving(
                sm.pmp,
                sm.os_region_id,
                sm.enclaves[eid],
                m.harts[m.hartid as int],
                m.host_trap_vector,
            ),
        ),
        ..m
    }
}

/// Puts the enclave side away in the thread of enclave `eid` and sets the
/// executing hart up for the host.
fn context_switch_to_host(
    sm: &mut security_monitor,
    m: &mut machine,
    regs: &mut sbi_trap_regs,
    eid: enclave_id,
    return_on_resume: bool,
)
    requires
        old(sm).pmp.wf(),
        old(m).wf(),
        eid < ENCL_MAX,
    ensures
        *final(sm) == monitor_leaving(
            *old(sm),
            *old(m),
            *old(regs),
            eid as int,
            return_on_resume,
        ),
        *final(m) == machine_leaving(*old(sm), *old(m), eid as int),
        *final(regs) == regs_swapped(old(sm).enclaves[eid as int].threads[0], *old(regs)),
{
    broadcast use vstd::array::group_array_axioms;

    let h = m.hartid;
    let ghost e0 = sm.enclaves[eid as int];
    // set PMP
    set_enclave_regions(&sm.pmp, &sm.enclaves[eid], &mut m.harts[h], PMP_NO_PERM);
    pmp_set_keystone(&sm.pmp, &mut m.harts[h], sm.os_region_id, PMP_ALL_PERM);

    let interrupts: u64 = MIP_SSIP | MIP_STIP | MIP_SEIP;
    csr_write(&mut m.harts[h], csr::mideleg, interrupts);

    /* restore host context */
    swap_sides(
        &mut sm.enclaves[eid].threads[0],
        regs,
        &mut m.harts[h],
        if return_on_resume { 1 } else { 0 },
    );

    switch_vector_host(m);

    let pending: u64 = csr_read(&m.harts[h], csr::mip);

    if pending & MIP_MTIP != 0 {
        csr_clear(&mut m.harts[h], csr::mip, MIP_MTIP);
        csr_set(&mut m.harts[h], csr::mip, MIP_STIP);
    }
    if pending & MIP_MSIP != 0 {
        csr_clear(&mut m.harts[h], csr::mip, MIP_MSIP);
        csr_set(&mut m.harts[h], csr::mip, MIP_SSIP);
    }
    if pending & MIP_MEIP != 0 {
        csr_clear(&mut m.harts[h], csr::mip, MIP_MEIP);
        csr_set(&mut m.harts[h], csr::mip, MIP_SEIP);
    }
    // Reconfigure platform specific defenses

    platform_switch_from_enclave(&mut sm.enclaves[eid]);

    cpu_exit_enclave_context(&mut sm.cpus, m);

    proof {
        let want_sm = monitor_leaving(*old(sm), *old(m), *old(regs), eid as int, return_on_resume);
        assert(sm.enclaves[eid as int].threads =~= want_sm.enclaves[eid as int].threads);
        assert(sm.enclaves[eid as int] == want_sm.enclaves[eid as int]);
        assert(sm.enclaves =~= want_sm.enclaves);
        let want_m = machine_leaving(*old(sm), *old(m), eid as int);
        assert(m.harts[h as int] == want_m.harts[h as int]);
        assert(m.harts =~= want_m.harts);
    }
}

impl security_monitor {
    /// The monitor with enclave `eid` marked as running with one more thread.
    pub open spec fn with_thread_started(&self, eid: int) -> security_monitor {
        let e = self.enclaves[eid];
        self.with_enclave(
            eid,
            enclave { state: enclave_state::RUNNING, n_thread: (e.n_thread + 1) as usize, ..e },
        )
    }

    /// The monitor with one thread less in enclave `eid`, which is stopped
    /// when none is left.
    pub open spec fn with_thread_stopped(&self, eid: int) -> security_monitor {
        let e = self.enclaves[eid];
        self.with_enclave(
            eid,
            enclave {
                state: if e.n_thread == 1 { enclave_state::STOPPED } else { e.state },
                n_thread: (e.n_thread - 1) as usize,
                ..e
            },
        )
    }
}

proof fn lemma_with_enclave_wf(sm: security_monitor, eid: int, e: enclave)
    requires
        sm.wf(),
        0 <= eid < ENCL_MAX,
        e.wf(),
    ensures
        sm.with_enclave(eid, e).wf(),
        sm.with_enclave(eid, e).enclaves[eid] == e,
        forall|k: int| 0 <= k < ENCL_MAX && k != eid ==> sm.with_enclave(eid, e).enclaves[k] == sm.enclaves[k],
{
    broadcast use vstd::array::group_array_axioms;

    let r = sm.with_enclave(eid, e);
    assert forall|k: int| 0 <= k < ENCL_MAX implies (#[trigger] r.enclaves[k]).wf() by {
        if k != eid {
            assert(r.enclaves[k] == sm.enclaves[k]);
        }
    }
}

/// A context switch changes no state, thread count or region of an enclave,
/// so it keeps the monitor well formed.
proof fn lemma_switch_keeps_wf(
    before: security_monitor,
    after: security_monitor,
    eid: int,
    threads: [thread_state; 1],
    cpus: [cpu_state; 16],
)
    requires
        before.wf(),
        0 <= eid < ENCL_MAX,
        after == (security_monitor {
            enclaves: vstd::array::spec_array_update(
                before.enclaves,
                eid,
                enclave { threads, ..before.enclaves[eid] },
            ),
            cpus,
            ..before
        }),
    ensures
        after.wf(),
        after.enclaves[eid].state == before.enclaves[eid].state,
        after.enclaves[eid].n_thread == before.enclaves[eid].n_thread,
        after.enclaves[eid].regions == before.enclaves[eid].regions,
        after.enclaves[eid].hash == before.enclaves[eid].hash,
        forall|k: int| 0 <= k < ENCL_MAX && k != eid ==> after.enclaves[k] == before.enclaves[k],
        after.pmp == before.pmp,
{
    broadcast use vstd::array::group_array_axioms;

    assert forall|k: int| 0 <= k < ENCL_MAX implies (#[trigger] after.enclaves[k]).wf() by {
        if k != eid {
            assert(after.enclaves[k] == before.enclaves[k]);
        } else {
            assert(before.enclaves[eid].wf());
        }
    }
}

/// Enters enclave `eid` for the first time.
///
/// Succeeds exactly if the enclave exists and is fresh. It then runs with
/// one thread more, and the executing hart is switched to it with its entry
/// parameters loaded. Otherwise nothing changes and the answer is
/// `SBI_ERR_SM_ENCLAVE_NOT_FRESH`.
pub fn run_enclave(
    sm: &mut security_monitor,
    m: &mut machine,
    regs: &mut sbi_trap_regs,
    eid: enclave_id,
) -> (r: usize)
    requires
        old(sm).wf(),
        old(m).wf(),
    ensures
        r == if old(sm).runnable(eid as int) {
            SBI_ERR_SM_ENCLAVE_SUCCESS
        } else {
            SBI_ERR_SM_ENCLAVE_NOT_FRESH
        },
        !old(sm).runnable(eid as int) ==> *final(sm) == *old(sm) && *final(m) == *old(m) && *final(regs) == *old(regs),
        old(sm).runnable(eid as int) ==> {
            let started = old(sm).with_thread_started(eid as int);
            &&& *final(sm) == monitor_entering(started, *old(m), *old(regs), eid as int)
            &&& *final(m) == machine_entering(started, *old(m), eid as int, true)
            &&& *final(regs) == regs_entering(started.enclaves[eid as int], *old(regs), true)
            &&& final(sm).enclaves[eid as int].state == enclave_state::RUNNING
            &&& final(sm).enclaves[eid as int].n_thread == 1
        },
        final(sm).wf(),
        final(m).wf(),
{
    broadcast use vstd::array::group_array_axioms;

    let runable: bool = enclave_exists(&sm.enclaves, eid) && sm.enclaves[eid].state
        == enclave_state::FRESH;
    if runable {
        assert(sm.enclaves[eid as int].wf());
        sm.enclaves[eid].state = enclave_state::RUNNING;
        sm.enclaves[eid].n_thread += 1;
        assert(sm.enclaves =~= old(sm).with_thread_started(eid as int).enclaves);
    }
    if !runable {
        return SBI_ERR_SM_ENCLAVE_NOT_FRESH;
    }
    proof {
        lemma_with_enclave_wf(*old(sm), eid as int, sm.enclaves[eid as int]);
    }
    let ghost started = *sm;

    // Enclave is OK to run, context switch to it
    context_switch_to_enclave(sm, m, regs, eid, 1);
    proof {
        lemma_switch_keeps_wf(
            started,
            *sm,
            eid as int,
            sm.enclaves[eid as int].threads,
            sm.cpus,
        );
    }
    SBI_ERR_SM_ENCLAVE_SUCCESS
}

/// Leaves enclave `eid` because it has finished.
///
/// Succeeds exactly if the enclave runs. It then has one thread less, is
/// stopped when none is left, and the executing hart is switched back to
/// the host. Otherwise nothing changes and the answer is
/// `SBI_ERR_SM_ENCLAVE_NOT_RUNNING`.
pub fn exit_enclave(
    sm: &mut security_monitor,
    m: &mut machine,
    regs: &mut sbi_trap_regs,
    eid: enclave_id,
) -> (r: usize)
    requires
        old(sm).wf(),
        old(m).wf(),
    ensures
        r == if old(sm).running(eid as int) {
            SBI_ERR_SM_ENCLAVE_SUCCESS
        } else {
            SBI_ERR_SM_ENCLAVE_NOT_RUNNING
        },
        !old(sm).running(eid as int) ==> *final(sm) == *old(sm) && *final(m) == *old(m) && *final(regs) == *old(regs),
        old(sm).running(eid as int) ==> {
            let stopped = old(sm).with_thread_stopped(eid as int);
            &&& *final(sm) == monitor_leaving(stopped, *old(m), *old(regs), eid as int, false)
            &&& *final(m) == machine_leaving(stopped, *old(m), eid as int)
            &&& *final(regs) == regs_swapped(stopped.enclaves[eid as int].threads[0], *old(regs))
            &&& final(sm).enclaves[eid as int].state == enclave_state::STOPPED
            &&& final(sm).enclaves[eid as int].n_thread == 0
        },
        final(sm).wf(),
        final(m).wf(),
{
    broadcast use vstd::array::group_array_axioms;

    let exitable = eid < ENCL_MAX && sm.enclaves[eid].state == enclave_state::RUNNING;
    if exitable {
        assert(sm.enclaves[eid as int].wf());
        sm.enclaves[eid].n_thread -= 1;
        if sm.enclaves[eid].n_thread == 0 {
            sm.enclaves[eid].state = enclave_state::STOPPED;
        }
        assert(sm.enclaves =~= old(sm).with_thread_stopped(eid as int).enclaves);
    }
    if !exitable {
        return SBI_ERR_SM_ENCLAVE_NOT_RUNNING;
    }
    proof {
        lemma_with_enclave_wf(*old(sm), eid as int, sm.enclaves[eid as int]);
    }
    let ghost stopped = *sm;
    context_switch_to_host(sm, m, regs, eid, false);
    proof {
        lemma_switch_keeps_wf(
            stopped,
            *sm,
            eid as int,
            sm.enclaves[eid as int].threads,
            sm.cpus,
        );
    }
    SBI_ERR_SM_ENCLAVE_SUCCESS
}

/// The answer of `stop_enclave` to a request that stopped the enclave.
pub open spec fn stop_answer(request: u64) -> usize {
    if request == STOP_TIMER_INTERRUPT {
        SBI_ERR_SM_ENCLAVE_INTERRUPTED
    } else if request == STOP_EDGE_CALL_HOST {
        SBI_ERR_SM_ENCLAVE_EDGE_CALL_HOST
    } else {
        SBI_ERR_SM_ENCLAVE_UNKNOWN_ERROR
    }
}

/// Leaves enclave `eid` because a timer interrupt came or because it calls
/// the host; it can be resumed later.
///
/// Takes effect exactly if the enclave runs. It then has one thread less,
/// is stopped when none is left, the executing hart is switched back to the
/// host, and the answer names the reason. A call to the host is to get a
/// return value on resume. Otherwise nothing changes and the answer is
/// `SBI_ERR_SM_ENCLAVE_NOT_RUNNING`.
pub fn stop_enclave(
    sm: &mut security_monitor,
    m: &mut machine,
    regs: &mut sbi_trap_regs,
    request: u64,
    eid: enclave_id,
) -> (r: usize)
    requires
        old(sm).wf(),
        old(m).wf(),
    ensures
        r == if old(sm).running(eid as int) {
            stop_answer(request)
        } else {
            SBI_ERR_SM_ENCLAVE_NOT_RUNNING
        },
        !old(sm).running(eid as int) ==> *final(sm) == *old(sm) && *final(m) == *old(m) && *final(regs) == *old(regs),
        old(sm).running(eid as int) ==> {
            let stopped = old(sm).with_thread_stopped(eid as int);
            &&& *final(sm) == monitor_leaving(
                stopped,
                *old(m),
                *old(regs),
                eid as int,
                request == STOP_EDGE_CALL_HOST,
            )
            &&& *final(m) == machine_leaving(stopped, *old(m), eid as int)
            &&& *final(regs) == regs_swapped(stopped.enclaves[eid as int].threads[0], *old(regs))
            &&& final(sm).enclaves[eid as int].state == enclave_state::STOPPED
            &&& final(sm).enclaves[eid as int].n_thread == 0
        },
        final(sm).wf(),
        final(m).wf(),
{
    broadcast use vstd::array::group_array_axioms;

    let stoppable = eid < ENCL_MAX && sm.enclaves[eid].state == enclave_state::RUNNING;
    if stoppable {
        assert(sm.enclaves[eid as int].wf());
        sm.enclaves[eid].n_thread -= 1;
        if sm.enclaves[eid].n_thread == 0 {
            sm.enclaves[eid].state = enclave_state::STOPPED;
        }
        assert(sm.enclaves =~= old(sm).with_thread_stopped(eid as int).enclaves);
    }
    if !stoppable {
        return SBI_ERR_SM_ENCLAVE_NOT_RUNNING;
    }
    proof {
        lemma_with_enclave_wf(*old(sm), eid as int, sm.enclaves[eid as int]);
    }
    let ghost stopped = *sm;

    context_switch_to_host(sm, m, regs, eid, request == STOP_EDGE_CALL_HOST);
    proof {
        lemma_switch_keeps_wf(
            stopped,
            *sm,
            eid as int,
            sm.enclaves[eid as int].threads,
            sm.cpus,
        );
    }

    if request == STOP_TIMER_INTERRUPT {
        SBI_ERR_SM_ENCLAVE_INTERRUPTED
    } else if request == STOP_EDGE_CALL_HOST {
        SBI_ERR_SM_ENCLAVE_EDGE_CALL_HOST
    } else {
        SBI_ERR_SM_ENCLAVE_UNKNOWN_ERROR
    }
}

/// Enters enclave `eid` again.
///
/// Succeeds exactly if the enclave exists, runs or is stopped, and has room
/// for a thread. It then runs with one thread more, and the executing hart
/// is switched to it without loading entry parameters. Otherwise nothing
/// changes and the answer is `SBI_ERR_SM_ENCLAVE_NOT_RESUMABLE`.
pub fn resume_enclave(
    sm: &mut security_monitor,
    m: &mut machine,
    regs: &mut sbi_trap_regs,
    eid: enclave_id,
) -> (r: usize)
    requires
        old(sm).wf(),
        old(m).wf(),
    ensures
        r == if old(sm).resumable(eid as int) {
            SBI_ERR_SM_ENCLAVE_SUCCESS
        } else {
            SBI_ERR_SM_ENCLAVE_NOT_RESUMABLE
        },
        !old(sm).resumable(eid as int) ==> *final(sm) == *old(sm) && *final(m) == *old(m)
            && *final(regs) == *old(regs),
        old(sm).resumable(eid as int) ==> {
            let started = old(sm).with_thread_started(eid as int);
            &&& *final(sm) == monitor_entering(started, *old(m), *old(regs), eid as int)
            &&& *final(m) == machine_entering(started, *old(m), eid as int, false)
            &&& *final(regs) == regs_entering(started.enclaves[eid as int], *old(regs), false)
            &&& final(sm).enclaves[eid as int].state == enclave_state::RUNNING
            &&& final(sm).enclaves[eid as int].n_thread == 1
        },
        final(sm).wf(),
        final(m).wf(),
{
    broadcast use vstd::array::group_array_axioms;

    let resumable: bool = enclave_exists(&sm.enclaves, eid) && (sm.enclaves[eid].state
        == enclave_state::RUNNING || sm.enclaves[eid].state == enclave_state::STOPPED)
        && sm.enclaves[eid].n_thread < MAX_ENCL_THREADS;

    if !resumable {
        return SBI_ERR_SM_ENCLAVE_NOT_RESUMABLE;
    } else {
        assert(sm.enclaves[eid as int].wf());
        sm.enclaves[eid].n_thread += 1;
        sm.enclaves[eid].state = enclave_state::RUNNING;
        assert(sm.enclaves =~= old(sm).with_thread_started(eid as int).enclaves);
    }
    proof {
        lemma_with_enclave_wf(*old(sm), eid as int, sm.enclaves[eid as int]);
    }
    let ghost started = *sm;

    // Enclave is OK to resume, context switch to it
    context_switch_to_enclave(sm, m, regs, eid, 0);
    proof {
        lemma_switch_keeps_wf(
            started,
            *sm,
            eid as int,
            sm.enclaves[eid as int].threads,
            sm.cpus,
        );
    }
    SBI_ERR_SM_ENCLAVE_SUCCESS
}

/// Whether a region of this type is cleared and released, one by one, when
/// its enclave is destroyed: every region in use but the shared one.
pub open spec fn cleared_on_destroy(t: enclave_region_type) -> bool {
    t != enclave_region_type::REGION_INVALID && t != enclave_region_type::REGION_UTM
}

/// The allocator after the first `n` regions in `regions` have been
/// released, as far as they are cleared on destroy.
pub open spec fn pmp_after_release(pmp: pmp_table, regions: Seq<enclave_region>, n: nat) -> pmp_table
    decreases n,
{
    if n == 0 {
        pmp
    } else {
        let prev = pmp_after_release(pmp, regions, (n - 1) as nat);
        if cleared_on_destroy(regions[n - 1].region_type) {
            prev.after_free(regions[n - 1].pmp_rid as int)
        } else {
            prev
        }
    }
}

/// The harts after the entries of the first `n` regions in `regions` have
/// been cleared on all started harts, each just before it is released.
pub open spec fn harts_after_release(
    pmp: pmp_table,
    regions: Seq<enclave_region>,
    harts: [hart_state; 16],
    n: nat,
) -> [hart_state; 16]
    decreases n,
{
    if n == 0 {
        harts
    } else {
        let prev = harts_after_release(pmp, regions, harts, (n - 1) as nat);
        if cleared_on_destroy(regions[n - 1].region_type) {
            broadcast_harts(
                pmp_after_release(pmp, regions, (n - 1) as nat),
                prev,
                regions[n - 1].pmp_rid as int,
                false,
                PMP_NO_PERM,
            )
        } else {
            prev
        }
    }
}

/// Whether the address `a` lies in one of the first `n` regions in
/// `regions` at the time that region is cleared.
pub open spec fn cleared_by_release(pmp: pmp_table, regions: Seq<enclave_region>, n: nat, a: int) -> bool
    decreases n,
{
    if n == 0 {
        false
    } else {
        let before = pmp_after_release(pmp, regions, (n - 1) as nat);
        let rid = regions[n - 1].pmp_rid as int;
        cleared_by_release(pmp, regions, (n - 1) as nat, a) || (cleared_on_destroy(
            regions[n - 1].region_type,
        ) && before.valid(rid) && before.regions[rid].contains(a))
    }
}

/// The regions with the first `n` of them marked as not in use.
pub open spec fn regions_unused(regions: [enclave_region; 8], n: nat) -> [enclave_region; 8]
    decreases n,
{
    if n == 0 {
        regions
    } else {
        vstd::array::spec_array_update(
            regions_unused(regions, (n - 1) as nat),
            n - 1,
            enclave_region {
                region_type: enclave_region_type::REGION_INVALID,
                ..regions[n - 1]
            },
        )
    }
}

/// The slot of a destroyed enclave: invalid, no thread, no page table, no
/// declared addresses, and no region in use. The measurement, the saved
/// thread and the id stay as they were.
pub open spec fn destroyed_slot(e: enclave) -> enclave {
    enclave {
        encl_satp: 0,
        state: enclave_state::INVALID,
        regions: regions_unused(e.regions, ENCLAVE_REGIONS_MAX as nat),
        params: runtime_va_params_t {
            runtime_entry: 0,
            user_entry: 0,
            untrusted_ptr: 0,
            untrusted_size: 0,
        },
        pa_params: runtime_pa_params {
            dram_base: 0,
            dram_size: 0,
            runtime_base: 0,
            user_base: 0,
            free_base: 0,
        },
        n_thread: 0,
        ..e
    }
}

/// The allocator after all regions of `e` have been released: first those
/// that are cleared, one by one, then the shared one.
pub open spec fn pmp_after_destroy(pmp: pmp_table, e: enclave) -> pmp_table {
    let released = pmp_after_release(pmp, e.regions@, ENCLAVE_REGIONS_MAX as nat);
    let utm = e.region_index(enclave_region_type::REGION_UTM);
    if utm != -1 {
        released.after_free(e.regions[utm].pmp_rid as int)
    } else {
        released
    }
}

pub proof fn lemma_regions_unused(regions: [enclave_region; 8], n: nat)
    requires
        n <= 8,
    ensures
        forall|k: int|
            0 <= k < 8 ==> #[trigger] regions_unused(regions, n)[k] == if k < n {
                enclave_region {
                    region_type: enclave_region_type::REGION_INVALID,
                    ..regions[k]
                }
            } else {
                regions[k]
            },
    decreases n,
{
    broadcast use vstd::array::group_array_axioms;

    if n > 0 {
        lemma_regions_unused(regions, (n - 1) as nat);
        let prev = regions_unused(regions, (n - 1) as nat);
        let cur = regions_unused(regions, n);
        assert forall|k: int| 0 <= k < 8 implies #[trigger] cur[k] == if k < n {
            enclave_region { region_type: enclave_region_type::REGION_INVALID, ..regions[k] }
        } else {
            regions[k]
        } by {
            assert(prev[k] == if k < n - 1 {
                enclave_region { region_type: enclave_region_type::REGION_INVALID, ..regions[k] }
            } else {
                regions[k]
            });
        }
    }
}

/// What `destroy_enclave` does: `sm1`, `m1` and `r` are the monitor, the
/// machine and the answer after a request to destroy enclave `eid` made
/// with `sm0` and `m0`.
pub open spec fn destroy_outcome(
    sm0: security_monitor,
    m0: machine,
    eid: enclave_id,
    sm1: security_monitor,
    m1: machine,
    r: usize,
) -> bool {
    &&& r == if sm0.destroyable(eid as int) {
        SBI_ERR_SM_ENCLAVE_SUCCESS
    } else {
        SBI_ERR_SM_ENCLAVE_NOT_DESTROYABLE
    }
    &&& !sm0.destroyable(eid as int) ==> sm1 == sm0 && m1 == m0
    &&& sm0.destroyable(eid as int) ==> {
        let e = sm0.enclaves[eid as int];
        &&& sm1 == (security_monitor {
            pmp: pmp_after_destroy(sm0.pmp, e),
            enclaves: vstd::array::spec_array_update(
                sm0.enclaves,
                eid as int,
                destroyed_slot(e),
            ),
            ..sm0
        })
        &&& m1 == (machine {
            harts: harts_after_release(
                sm0.pmp,
                e.regions@,
                m0.harts,
                ENCLAVE_REGIONS_MAX as nat,
            ),
            mem: m1.mem,
            ..m0
        })
        &&& same_layout(m0.mem.banks@, m1.mem.banks@)
        &&& forall|a: int|
            #[trigger] m1.mem.byte(a) == if cleared_by_release(
                sm0.pmp,
                e.regions@,
                ENCLAVE_REGIONS_MAX as nat,
                a,
            ) {
                0
            } else {
                m0.mem.byte(a)
            }
        &&& sm1.enclaves[eid as int].state == enclave_state::INVALID
        &&& forall|i: int|
            0 <= i < ENCLAVE_REGIONS_MAX ==> (#[trigger] sm1.enclaves[eid as int].regions[i]).region_type
                == enclave_region_type::REGION_INVALID
    }
}

/// Destroys enclave `eid`.
///
/// Succeeds exactly if the enclave exists and does not run. Then each of
/// its regions but the shared one is, in turn, filled with zeros, cleared
/// from the protection registers of all started harts, and released; the
/// shared region is released; and the slot becomes invalid with no region
/// in use. Otherwise nothing changes and the answer is
/// `SBI_ERR_SM_ENCLAVE_NOT_DESTROYABLE`.
pub fn destroy_enclave(sm: &mut security_monitor, m: &mut machine, eid: enclave_id) -> (r: usize)
    requires
        old(sm).wf(),
    ensures
        destroy_outcome(*old(sm), *old(m), eid, *final(sm), *final(m), r),
        final(sm).wf(),
{
    broadcast use vstd::array::group_array_axioms;

    let destroyable: bool = enclave_exists(&sm.enclaves, eid) && sm.enclaves[eid].state.order()
        <= enclave_state::STOPPED.order();
    /* update the enclave state first so that
     * no SM can run the enclave any longer */
    if destroyable {
        sm.enclaves[eid].state = enclave_state::DESTROYING;
    }
    if !destroyable {
        return SBI_ERR_SM_ENCLAVE_NOT_DESTROYABLE;
    }
    let ghost e0 = old(sm).enclaves[eid as int];
    let ghost pmp0 = old(sm).pmp;

    // 0. Let the platform specifics do cleanup/modifications
    platform_destroy_enclave(&mut sm.enclaves[eid]);
    assert(sm.enclaves =~= vstd::array::spec_array_update(
        old(sm).enclaves,
        eid as int,
        enclave { state: enclave_state::DESTROYING, ..e0 },
    ));

    // 1. clear all the data in the enclave pages
    // requires no lock (single runner)
    let mut i: usize = 0;
    while i < ENCLAVE_REGIONS_MAX
        invariant
            i <= ENCLAVE_REGIONS_MAX,
            eid < ENCL_MAX,
            pmp0.wf(),
            pmp0 == old(sm).pmp,
            e0 == old(sm).enclaves[eid as int],
            *sm == (security_monitor {
                pmp: pmp_after_release(pmp0, e0.regions@, i as nat),
                enclaves: vstd::array::spec_array_update(
                    old(sm).enclaves,
                    eid as int,
                    enclave { state: enclave_state::DESTROYING, ..e0 },
                ),
                ..*old(sm)
            }),
            sm.pmp.wf(),
            *m == (machine {
                harts: harts_after_release(pmp0, e0.regions@, old(m).harts, i as nat),
                mem: m.mem,
                ..*old(m)
            }),
            same_layout(old(m).mem.banks@, m.mem.banks@),
            forall|a: int| m.mem.backed(a) == old(m).mem.backed(a),
            forall|a: int|
                #[trigger] m.mem.byte(a) == if cleared_by_release(pmp0, e0.regions@, i as nat, a) {
                    0
                } else {
                    old(m).mem.byte(a)
                },
        decreases ENCLAVE_REGIONS_MAX - i,
    {
        let t = sm.enclaves[eid].regions[i].region_type;
        if !(t == enclave_region_type::REGION_INVALID || t == enclave_region_type::REGION_UTM) {
            //1.a Clear all pages
            let rid: region_id = sm.enclaves[eid].regions[i].pmp_rid;
            let base = pmp_region_get_addr(&sm.pmp, rid);
            let size = pmp_region_get_size(&sm.pmp, rid);
            let ghost mem_before = m.mem;
            let ghost pmp_before = sm.pmp;
            sbi_memset(&mut m.mem, base, 0, size);

            //1.b free pmp region
            pmp_unset_global(&sm.pmp, m, rid);
            pmp_region_free_atomic(&mut sm.pmp, rid);
            proof {
                assert forall|a: int|
                    #[trigger] m.mem.byte(a) == if cleared_by_release(
                        pmp0,
                        e0.regions@,
                        (i + 1) as nat,
                        a,
                    ) {
                        0
                    } else {
                        old(m).mem.byte(a)
                    } by {
                    assert(mem_before.byte(a) == if cleared_by_release(
                        pmp0,
                        e0.regions@,
                        i as nat,
                        a,
                    ) {
                        0
                    } else {
                        old(m).mem.byte(a)
                    });
                    if pmp_before.valid(rid as int) {
                        assert(pmp_before.regions[rid as int].wf());
                    }
                    if !mem_before.backed(a) {
                        assert(mem_before.byte(a) == 0);
                        assert(!old(m).mem.backed(a));
                    }
                }
            }
        }
        i += 1;
    }

    // 2. free pmp region for UTM
    let utm = get_enclave_region_index(&sm.enclaves, eid, enclave_region_type::REGION_UTM);
    if utm != -1 {
        let rid = sm.enclaves[eid].regions[utm as usize].pmp_rid;
        pmp_region_free_atomic(&mut sm.pmp, rid);
    }
    assert(sm.pmp == pmp_after_destroy(pmp0, e0));

    sm.enclaves[eid].encl_satp = 0;
    sm.enclaves[eid].n_thread = 0;
    sm.enclaves[eid].params = runtime_va_params_t::new();
    sm.enclaves[eid].pa_params = runtime_pa_params::new();
    assert(sm.enclaves[eid as int] == (enclave {
        state: enclave_state::DESTROYING,
        regions: regions_unused(e0.regions, 0),
        ..destroyed_slot(e0)
    }));
    assert(sm.enclaves =~= vstd::array::spec_array_update(
        old(sm).enclaves,
        eid as int,
        enclave {
            state: enclave_state::DESTROYING,
            regions: regions_unused(e0.regions, 0),
            ..destroyed_slot(e0)
        },
    ));
    let mut i: usize = 0;
    while i < ENCLAVE_REGIONS_MAX
        invariant
            i <= ENCLAVE_REGIONS_MAX,
            eid < ENCL_MAX,
            e0 == old(sm).enclaves[eid as int],
            sm.pmp.wf(),
            sm.pmp == pmp_after_destroy(old(sm).pmp, e0),
            *sm == (security_monitor {
                pmp: sm.pmp,
                enclaves: vstd::array::spec_array_update(
                    old(sm).enclaves,
                    eid as int,
                    enclave {
                        state: enclave_state::DESTROYING,
                        regions: regions_unused(e0.regions, i as nat),
                        ..destroyed_slot(e0)
                    },
                ),
                ..*old(sm)
            }),
        decreases ENCLAVE_REGIONS_MAX - i,
    {
        proof {
            lemma_regions_unused(e0.regions, i as nat);
        }
        sm.enclaves[eid].regions[i].region_type = enclave_region_type::REGION_INVALID;
        proof {
            assert(sm.enclaves[eid as int].regions =~= regions_unused(e0.regions, (i + 1) as nat));
            assert(sm.enclaves =~= vstd::array::spec_array_update(
                old(sm).enclaves,
                eid as int,
                enclave {
                    state: enclave_state::DESTROYING,
                    regions: regions_unused(e0.regions, (i + 1) as nat),
                    ..destroyed_slot(e0)
                },
            ));
        }
        i += 1;
    }

    // 3. release eid
    encl_free_eid(&mut sm.enclaves, eid);
    proof {
        lemma_regions_unused(e0.regions, 8);
        assert(sm.enclaves =~= vstd::array::spec_array_update(
            old(sm).enclaves,
            eid as int,
            destroyed_slot(e0),
        ));
        assert forall|k: int| 0 <= k < ENCL_MAX implies (#[trigger] sm.enclaves[k]).wf() by {
            if k != eid {
                assert(sm.enclaves[k] == old(sm).enclaves[k]);
            }
        }
    }
    SBI_ERR_SM_ENCLAVE_SUCCESS
}

/// The first slot from `k` on that is invalid, or `ENCL_MAX`.
pub open spec fn first_invalid(enclaves: Seq<enclave>, k: int) -> int
    decreases enclaves.len() - k,
{
    if k < 0 || k >= enclaves.len() {
        enclaves.len() as int
    } else if enclaves[k].state == enclave_state::INVALID {
        k
    } else {
        first_invalid(enclaves, k + 1)
    }
}

/// Takes the first invalid slot of the table for a new enclave and marks it
/// as allocated. Fails if no slot is invalid.
fn encl_alloc_eid(enclaves: &mut [enclave; 16], _eid: &mut enclave_id) -> (r: usize)
    ensures
        r == if first_invalid(old(enclaves)@, 0) < ENCL_MAX {
            SBI_ERR_SM_ENCLAVE_SUCCESS
        } else {
            SBI_ERR_SM_ENCLAVE_NO_FREE_RESOURCE
        },
        r != SBI_ERR_SM_ENCLAVE_SUCCESS ==> *final(enclaves) == *old(enclaves) && *final(_eid)
            == *old(_eid),
        r == SBI_ERR_SM_ENCLAVE_SUCCESS ==> *final(_eid) == first_invalid(old(enclaves)@, 0)
            && *final(_eid) < ENCL_MAX && old(enclaves)[*final(_eid) as int].state
            == enclave_state::INVALID && *final(enclaves) == vstd::array::spec_array_update(
            *old(enclaves),
            *final(_eid) as int,
            enclave { state: enclave_state::ALLOCATED, ..old(enclaves)[*final(_eid) as int] },
        ),
{
    broadcast use vstd::array::group_array_axioms;

    let mut eid: enclave_id = 0;
    while eid < ENCL_MAX && enclaves[eid].state != enclave_state::INVALID
        invariant
            eid <= ENCL_MAX,
            *enclaves == *old(enclaves),
            first_invalid(enclaves@, 0) == first_invalid(enclaves@, eid as int),
        decreases ENCL_MAX - eid,
    {
        eid += 1;
    }
    if eid != ENCL_MAX {
        enclaves[eid].state = enclave_state::ALLOCATED;
    }
    if eid != ENCL_MAX {
        *_eid = eid;
        assert(*enclaves =~= vstd::array::spec_array_update(
            *old(enclaves),
            eid as int,
            enclave { state: enclave_state::ALLOCATED, ..old(enclaves)[eid as int] },
        ));
        SBI_ERR_SM_ENCLAVE_SUCCESS
    } else {
        SBI_ERR_SM_ENCLAVE_NO_FREE_RESOURCE
    }
}

/// Gives slot `eid` back: marks it as invalid.
fn encl_free_eid(enclaves: &mut [enclave; 16], eid: enclave_id) -> (r: usize)
    requires
        eid < ENCL_MAX,
    ensures
        r == SBI_ERR_SM_ENCLAVE_SUCCESS,
        *final(enclaves) == vstd::array::spec_array_update(
            *old(enclaves),
            eid as int,
            enclave { state: enclave_state::INVALID, ..old(enclaves)[eid as int] },
        ),
{
    broadcast use vstd::array::group_array_axioms;

    enclaves[eid].state = enclave_state::INVALID;
    assert(*enclaves =~= vstd::array::spec_array_update(
        *old(enclaves),
        eid as int,
        enclave { state: enclave_state::INVALID, ..old(enclaves)[eid as int] },
    ));
    SBI_ERR_SM_ENCLAVE_SUCCESS
}

/// Whether the arguments of a request to create an enclave are in order:
/// neither region is empty or runs past the top of the address space; the
/// runtime and the user program begin inside the private region; the free
/// memory begins inside it or at its end; and the three follow one another
/// in this order.
pub open spec fn create_args_valid(args: keystone_sbi_create) -> bool {
    let epm_start = args.epm_region.paddr as int;
    let epm_end = args.epm_region.paddr + args.epm_region.size;
    &&& args.epm_region.size > 0
    &&& epm_end <= u64::MAX
    &&& args.utm_region.size > 0
    &&& args.utm_region.paddr + args.utm_region.size <= u64::MAX
    &&& epm_start <= args.runtime_paddr < epm_end
    &&& epm_start <= args.user_paddr < epm_end
    &&& epm_start <= args.free_paddr <= epm_end
    &&& args.runtime_paddr <= args.user_paddr <= args.free_paddr
}

fn is_create_args_valid(args: &keystone_sbi_create) -> (r: i32)
    ensures
        r == if create_args_valid(*args) { 1i32 } else { 0i32 },
{
    // check if physical addresses are valid
    if args.epm_region.size == 0 {
        return 0;
    }
    // check if overflow

    let epm_end: u64 = match args.epm_region.paddr.checked_add(args.epm_region.size) {
        Some(end) => end,
        None => { return 0; },
    };
    if args.utm_region.size == 0 || args.utm_region.paddr.checked_add(args.utm_region.size).is_none() {
        return 0;
    }
    let epm_start: u64 = args.epm_region.paddr;

    // check if physical addresses are in the range
    if args.runtime_paddr < epm_start || args.runtime_paddr >= epm_end {
        return 0;
    }
    if args.user_paddr < epm_start || args.user_paddr >= epm_end {
        return 0;
    }
    if args.free_paddr < epm_start || args.free_paddr > epm_end {
        // note: free_paddr == epm_end if there's no free memory
        return 0;
    }
    // check the order of physical addresses

    if args.runtime_paddr > args.user_paddr {
        return 0;
    }
    if args.user_paddr > args.free_paddr {
        return 0;
    }
    1
}

/// Fills the shared region with zeros, since the host may have left anything in it.
fn clean_enclave_memory(mem: &mut phys_mem, utbase: u64, utsize: u64) -> (r: usize)
    ensures
        r == SBI_ERR_SM_ENCLAVE_SUCCESS,
        same_layout(old(mem).banks@, final(mem).banks@),
        forall|a: int| final(mem).backed(a) == old(mem).backed(a),
        forall|a: int|
            #[trigger] final(mem).byte(a) == if utbase <= a < utbase + utsize {
                0
            } else {
                old(mem).byte(a)
            },
{
    sbi_memset(mem, utbase, 0, utsize);
    SBI_ERR_SM_ENCLAVE_SUCCESS
}

/// The value of the page table register for a root table at `base`.
pub open spec fn satp_of(base: u64) -> u64 {
    (base >> RISCV_PGSHIFT) | (SATP_MODE_SV39 << HGATP_MODE_SHIFT)
}

/// The slot of an enclave that has been set up from `args` but not yet
/// measured: its private region `region` and its shared region `shared`
/// in the first two places, its page table at the start of the private
/// region, no thread, and a cleared saved side that takes the counter
/// enable of `hart`.
pub open spec fn created_slot(
    slot: enclave,
    eid: enclave_id,
    region: region_id,
    shared: region_id,
    args: keystone_sbi_create,
    hart: hart_state,
) -> enclave {
    enclave {
        eid,
        encl_satp: satp_of(args.epm_region.paddr),
        state: enclave_state::ALLOCATED,
        regions: vstd::array::spec_array_update(
            vstd::array::spec_array_update(
                slot.regions,
                0,
                enclave_region { pmp_rid: region, region_type: enclave_region_type::REGION_EPM },
            ),
            1,
            enclave_region { pmp_rid: shared, region_type: enclave_region_type::REGION_UTM },
        ),
        params: args.params,
        pa_params: runtime_pa_params {
            dram_base: args.epm_region.paddr,
            dram_size: args.epm_region.size,
            runtime_base: args.runtime_paddr,
            user_base: args.user_paddr,
            free_base: args.free_paddr,
        },
        n_thread: 0,
        threads: vstd::array::spec_array_update(
            slot.threads,
            0,
            thread_state {
                prev_mpp: -1i32,
                prev_state: zero_ctx(),
                prev_csrs: csrs { scounteren: hart.scounteren, ..zero_csrs() },
                ..slot.threads[0]
            },
        ),
        ..slot
    }
}

impl security_monitor {
    /// The slot that the next enclave gets, or `ENCL_MAX` if none is free.
    pub open spec fn create_eid(&self) -> int {
        first_invalid(self.enclaves@, 0)
    }

    /// The region id that the private region of the next enclave gets.
    pub open spec fn create_region(&self) -> int {
        self.pmp.free_region()
    }

    /// The allocator once the private region of `args` is created.
    pub open spec fn pmp_with_epm(&self, args: keystone_sbi_create) -> pmp_table {
        self.pmp.after_init(
            args.epm_region.paddr,
            args.epm_region.size,
            pmp_priority::PMP_PRI_ANY,
            0,
        )
    }

    /// The region id that the shared region of `args` gets.
    pub open spec fn create_shared(&self, args: keystone_sbi_create) -> int {
        self.pmp_with_epm(args).free_region()
    }

    /// The allocator once both regions of `args` are created.
    pub open spec fn pmp_with_both(&self, args: keystone_sbi_create) -> pmp_table {
        self.pmp_with_epm(args).after_init(
            args.utm_region.paddr,
            args.utm_region.size,
            pmp_priority::PMP_PRI_BOTTOM,
            0,
        )
    }

    /// The answer of `create_enclave` as far as it is decided before
    /// anything is kept: an error for arguments that are not in order, for
    /// a full table, and for a region that cannot be created; else success.
    pub open spec fn create_early_status(&self, args: keystone_sbi_create) -> usize {
        if !create_args_valid(args) {
            SBI_ERR_SM_ENCLAVE_ILLEGAL_ARGUMENT
        } else if self.create_eid() >= ENCL_MAX {
            SBI_ERR_SM_ENCLAVE_NO_FREE_RESOURCE
        } else if self.pmp.init_status(
            args.epm_region.paddr,
            args.epm_region.size,
            pmp_priority::PMP_PRI_ANY,
            0,
        ) != SBI_ERR_SM_PMP_SUCCESS {
            SBI_ERR_SM_ENCLAVE_PMP_FAILURE
        } else if self.pmp_with_epm(args).init_status(
            args.utm_region.paddr,
            args.utm_region.size,
            pmp_priority::PMP_PRI_BOTTOM,
            0,
        ) != SBI_ERR_SM_PMP_SUCCESS {
            SBI_ERR_SM_ENCLAVE_PMP_FAILURE
        } else {
            SBI_ERR_SM_ENCLAVE_SUCCESS
        }
    }

    /// The slot of the enclave of `args` when it is about to be measured.
    pub open spec fn create_slot(&self, m: machine, args: keystone_sbi_create) -> enclave {
        let harts = broadcast_harts(
            self.pmp_with_both(args),
            m.harts,
            self.create_region(),
            true,
            PMP_NO_PERM,
        );
        created_slot(
            self.enclaves[self.create_eid()],
            self.create_eid() as usize,
            self.create_region() as i32,
            self.create_shared(args) as i32,
            args,
            harts[m.hartid as int],
        )
    }
}

/// What `create_enclave` does: `sm1`, `m1`, `eidptr1` and `r` are the
/// monitor, the machine, the id and the answer after a request with `args`
/// made with `sm0`, `m0` and `eidptr0`.
pub open spec fn create_outcome(
    sm0: security_monitor,
    m0: machine,
    eidptr0: usize,
    args: keystone_sbi_create,
    sm1: security_monitor,
    m1: machine,
    eidptr1: usize,
    r: usize,
) -> bool {
    &&& sm0.create_early_status(args) != SBI_ERR_SM_ENCLAVE_SUCCESS ==> {
        &&& r == sm0.create_early_status(args)
        &&& sm1 == sm0
        &&& m1 == m0
        &&& eidptr1 == eidptr0
    }
    &&& sm0.create_early_status(args) == SBI_ERR_SM_ENCLAVE_SUCCESS ==> {
        let eid = sm0.create_eid();
        let region = sm0.create_region();
        let shared = sm0.create_shared(args);
        let pmp2 = sm0.pmp_with_both(args);
        let closed = broadcast_harts(pmp2, m0.harts, region, true, PMP_NO_PERM);
        let slot = sm0.create_slot(m0, args);
        &&& same_layout(m0.mem.banks@, m1.mem.banks@)
        &&& forall|a: int|
            #[trigger] m1.mem.byte(a) == if args.utm_region.paddr <= a
                < args.utm_region.paddr + args.utm_region.size {
                0
            } else {
                m0.mem.byte(a)
            }
        &&& match measurement(
            enclave_env(slot, pmp2),
            m1.mem,
            args.params,
            slot.encl_satp,
        ) {
            None => {
                &&& r == SBI_ERR_SM_ENCLAVE_ILLEGAL_PTE
                &&& eidptr1 == eidptr0
                &&& sm1 == (security_monitor {
                    pmp: pmp2.after_free(shared).after_free(region),
                    enclaves: vstd::array::spec_array_update(
                        sm0.enclaves,
                        eid,
                        enclave { state: enclave_state::INVALID, ..slot },
                    ),
                    ..sm0
                })
                &&& m1 == (machine {
                    harts: broadcast_harts(pmp2, closed, region, false, PMP_NO_PERM),
                    mem: m1.mem,
                    ..m0
                })
            },
            Some(hash) => {
                &&& r == SBI_ERR_SM_ENCLAVE_SUCCESS
                &&& eidptr1 == eid
                &&& sm1.enclaves[eid].hash@ == hash
                &&& sm1 == (security_monitor {
                    pmp: pmp2,
                    enclaves: vstd::array::spec_array_update(
                        sm0.enclaves,
                        eid,
                        enclave {
                            state: enclave_state::FRESH,
                            hash: sm1.enclaves[eid].hash,
                            ..slot
                        },
                    ),
                    ..sm0
                })
                &&& m1 == (machine { harts: closed, mem: m1.mem, ..m0 })
            },
        }
    }
}

/// Creates an enclave from `create_args` and puts its id into `eidptr`.
///
/// Arguments that are not in order, a full enclave table, and a private or
/// shared region that cannot be created each give their error, and then the
/// monitor, the machine and `eidptr` are exactly as before. Otherwise the
/// private region is closed to all started harts, the shared region is
/// filled with zeros, and the enclave is measured in the memory as it then
/// is. If its page tables hold an illegal entry, the private region is
/// cleared from the harts again, both regions are released, the slot is
/// invalid, and the answer is `SBI_ERR_SM_ENCLAVE_ILLEGAL_PTE`. If not, the
/// enclave is fresh and holds its measurement.
pub fn create_enclave(
    sm: &mut security_monitor,
    m: &mut machine,
    eidptr: &mut usize,
    create_args: keystone_sbi_create,
) -> (r: usize)
    requires
        old(sm).wf(),
        old(m).wf(),
    ensures
        final(sm).wf(),
        final(m).wf(),
        create_outcome(*old(sm), *old(m), *old(eidptr), create_args, *final(sm), *final(m), *final(eidptr), r),
{
    broadcast use vstd::array::group_array_axioms;

    /* EPM and UTM parameters */
    let base: u64 = create_args.epm_region.paddr;
    let size: u64 = create_args.epm_region.size;
    let utbase: u64 = create_args.utm_region.paddr;
    let utsize: u64 = create_args.utm_region.size;

    let mut eid: enclave_id = 0;
    let mut region: i32 = 0;
    let mut shared_region: i32 = 0;

    /* Runtime parameters */
    if is_create_args_valid(&create_args) == 0 {
        return SBI_ERR_SM_ENCLAVE_ILLEGAL_ARGUMENT;
    }
    /* set va params */

    let params: runtime_va_params_t = create_args.params;
    let pa_params = runtime_pa_params {
        dram_base: base,
        dram_size: size,
        runtime_base: create_args.runtime_paddr,
        user_base: create_args.user_paddr,
        free_base: create_args.free_paddr,
    };

    // allocate eid
    if encl_alloc_eid(&mut sm.enclaves, &mut eid) != SBI_ERR_SM_ENCLAVE_SUCCESS {
        return SBI_ERR_SM_ENCLAVE_NO_FREE_RESOURCE;
    }
    let ghost slot0 = old(sm).enclaves[eid as int];
    let ghost pmp0 = old(sm).pmp;
    assert(slot0.wf());

    // create a PMP region bound to the enclave
    if pmp_region_init_atomic(&mut sm.pmp, base, size, pmp_priority::PMP_PRI_ANY, &mut region, 0)
        != 0 {
        encl_free_eid(&mut sm.enclaves, eid);
        assert(sm.enclaves =~= old(sm).enclaves);
        return SBI_ERR_SM_ENCLAVE_PMP_FAILURE;
    }
    let ghost pmp1 = sm.pmp;
    proof {
        lemma_after_init(pmp0, base, size, pmp_priority::PMP_PRI_ANY, 0);
    }

    // create PMP region for shared memory
    if pmp_region_init_atomic(
        &mut sm.pmp,
        utbase,
        utsize,
        pmp_priority::PMP_PRI_BOTTOM,
        &mut shared_region,
        0,
    ) != 0 {
        pmp_region_free_atomic(&mut sm.pmp, region);
        encl_free_eid(&mut sm.enclaves, eid);
        proof {
            lemma_free_undoes_init(pmp0, base, size, pmp_priority::PMP_PRI_ANY, 0);
            assert(sm.enclaves =~= old(sm).enclaves);
        }
        return SBI_ERR_SM_ENCLAVE_PMP_FAILURE;
    }
    let ghost pmp2 = sm.pmp;
    proof {
        lemma_after_init(pmp1, utbase, utsize, pmp_priority::PMP_PRI_BOTTOM, 0);
        assert(pmp2.valid(region as int));
    }

    // set pmp registers for private region (not shared)
    if pmp_set_global(&sm.pmp, m, region, PMP_NO_PERM) != 0 {
        pmp_region_free_atomic(&mut sm.pmp, shared_region);
        pmp_region_free_atomic(&mut sm.pmp, region);
        encl_free_eid(&mut sm.enclaves, eid);
        return SBI_ERR_SM_ENCLAVE_PMP_FAILURE;
    }
    let ghost closed = m.harts;

    // cleanup some memory regions for sanity
    clean_enclave_memory(&mut m.mem, utbase, utsize);

    // initialize enclave metadata
    sm.enclaves[eid].eid = eid;
    sm.enclaves[eid].regions[0].pmp_rid = region;
    sm.enclaves[eid].regions[0].region_type = enclave_region_type::REGION_EPM;
    sm.enclaves[eid].regions[1].pmp_rid = shared_region;
    sm.enclaves[eid].regions[1].region_type = enclave_region_type::REGION_UTM;
    sm.enclaves[eid].encl_satp = (base >> RISCV_PGSHIFT) | (SATP_MODE_SV39 << HGATP_MODE_SHIFT);
    sm.enclaves[eid].n_thread = 0;
    sm.enclaves[eid].params = params;
    sm.enclaves[eid].pa_params = pa_params;

    /* Init enclave state (regs etc) */
    let h = m.hartid;
    clean_state(&mut sm.enclaves[eid].threads[0], &m.harts[h]);
    let ghost slot = old(sm).create_slot(*old(m), create_args);
    proof {
        assert(sm.enclaves[eid as int].regions =~= slot.regions);
        assert(sm.enclaves[eid as int].threads =~= slot.threads);
        assert(sm.enclaves[eid as int] == slot);
    }

    /* Platform create happens as the last thing before hashing/etc since
       it may modify the enclave struct */
    let ret = platform_create_enclave(&mut sm.enclaves[eid]);
    if ret != 0 {
        pmp_unset_global(&sm.pmp, m, region);
        pmp_region_free_atomic(&mut sm.pmp, shared_region);
        pmp_region_free_atomic(&mut sm.pmp, region);
        encl_free_eid(&mut sm.enclaves, eid);
        return ret;
    }
    /* Validate memory, prepare hash and signature for attestation */

    let ret = validate_and_hash_enclave(&mut sm.enclaves[eid], &sm.pmp, &m.mem);
    /* The enclave is fresh if it has been validated and hashed but not run yet. */
    if ret != 0 {
        platform_destroy_enclave(&mut sm.enclaves[eid]);
        pmp_unset_global(&sm.pmp, m, region);
        pmp_region_free_atomic(&mut sm.pmp, shared_region);
        proof {
            lemma_after_free(pmp2, shared_region as int);
        }
        pmp_region_free_atomic(&mut sm.pmp, region);
        proof {
            lemma_after_free(pmp2.after_free(shared_region as int), region as int);
        }
        encl_free_eid(&mut sm.enclaves, eid);
        proof {
            assert(sm.enclaves =~= vstd::array::spec_array_update(
                old(sm).enclaves,
                eid as int,
                enclave { state: enclave_state::INVALID, ..slot },
            ));
            assert forall|k: int| 0 <= k < ENCL_MAX implies (#[trigger] sm.enclaves[k]).wf() by {
                if k != eid {
                    assert(sm.enclaves[k] == old(sm).enclaves[k]);
                }
            }
        }
        return ret;
    }
    sm.enclaves[eid].state = enclave_state::FRESH;
    /* EIDs are unsigned int in size, copy via simple copy */
    *eidptr = eid;
    proof {
        assert(sm.enclaves =~= vstd::array::spec_array_update(
            old(sm).enclaves,
            eid as int,
            enclave { state: enclave_state::FRESH, hash: sm.enclaves[eid as int].hash, ..slot },
        ));
        assert forall|k: int| 0 <= k < ENCL_MAX implies (#[trigger] sm.enclaves[k]).wf() by {
            if k != eid {
                assert(sm.enclaves[k] == old(sm).enclaves[k]);
            }
        }
    }
    SBI_ERR_SM_ENCLAVE_SUCCESS
}

/// The monitor with the first `n` slots of the enclave table made invalid
/// and all their regions marked as not in use.
pub open spec fn metadata_cleared(sm: security_monitor, n: nat) -> security_monitor
    decreases n,
{
    if n == 0 {
        sm
    } else {
        let prev = metadata_cleared(sm, (n - 1) as nat);
        let e = sm.enclaves[n - 1];
        prev.with_enclave(
            n - 1,
            enclave {
                state: enclave_state::INVALID,
                regions: regions_unused(e.regions, ENCLAVE_REGIONS_MAX as nat),
                ..e
            },
        )
    }
}

/// What clearing the table does to each slot and leaves alone elsewhere.
pub proof fn lemma_metadata_cleared(sm: security_monitor, n: nat)
    requires
        n <= ENCL_MAX,
    ensures
        metadata_cleared(sm, n) == (security_monitor {
            enclaves: metadata_cleared(sm, n).enclaves,
            ..sm
        }),
        forall|k: int|
            0 <= k < ENCL_MAX ==> #[trigger] metadata_cleared(sm, n).enclaves[k] == if k < n {
                enclave {
                    state: enclave_state::INVALID,
                    regions: regions_unused(sm.enclaves[k].regions, ENCLAVE_REGIONS_MAX as nat),
                    ..sm.enclaves[k]
                }
            } else {
                sm.enclaves[k]
            },
    decreases n,
{
    broadcast use vstd::array::group_array_axioms;

    if n > 0 {
        lemma_metadata_cleared(sm, (n - 1) as nat);
        let prev = metadata_cleared(sm, (n - 1) as nat);
        let cur = metadata_cleared(sm, n);
        assert forall|k: int| 0 <= k < ENCL_MAX implies #[trigger] cur.enclaves[k] == if k < n {
            enclave {
                state: enclave_state::INVALID,
                regions: regions_unused(sm.enclaves[k].regions, ENCLAVE_REGIONS_MAX as nat),
                ..sm.enclaves[k]
            }
        } else {
            sm.enclaves[k]
        } by {
            assert(prev.enclaves[k] == if k < n - 1 {
                enclave {
                    state: enclave_state::INVALID,
                    regions: regions_unused(sm.enclaves[k].regions, ENCLAVE_REGIONS_MAX as nat),
                    ..sm.enclaves[k]
                }
            } else {
                sm.enclaves[k]
            });
        }
    }
}

/// Init all metadata as needed for keeping track of enclaves: every slot
/// becomes invalid and none of its regions is in use. Called once at start-up.
pub fn enclave_init_metadata(sm: &mut security_monitor)
    ensures
        *final(sm) == metadata_cleared(*old(sm), ENCL_MAX as nat),
        *final(sm) == (security_monitor { enclaves: final(sm).enclaves, ..*old(sm) }),
        forall|eid: int| 0 <= eid < ENCL_MAX ==> !final(sm).enclave_exists(eid),
        forall|eid: int, i: int|
            0 <= eid < ENCL_MAX && 0 <= i < ENCLAVE_REGIONS_MAX ==> (#[trigger] final(sm).enclaves[eid].regions[i]).region_type == enclave_region_type::REGION_INVALID,
        old(sm).pmp.wf() && (forall|eid: int|
            0 <= eid < ENCL_MAX ==> (#[trigger] old(sm).enclaves[eid]).n_thread == 0)
            ==> final(sm).wf(),
{
    broadcast use vstd::array::group_array_axioms;

    /* Assumes eids are incrementing values, which they are for now */
    let mut eid: usize = 0;
    while eid < ENCL_MAX
        invariant
            eid <= ENCL_MAX,
            *sm == metadata_cleared(*old(sm), eid as nat),
        decreases ENCL_MAX - eid,
    {
        proof {
            lemma_metadata_cleared(*old(sm), eid as nat);
        }
        let ghost e0 = old(sm).enclaves[eid as int];
        sm.enclaves[eid].state = enclave_state::INVALID;

        // Clear out regions
        let mut i: usize = 0;
        while i < ENCLAVE_REGIONS_MAX
            invariant
                i <= ENCLAVE_REGIONS_MAX,
                eid < ENCL_MAX,
                e0 == old(sm).enclaves[eid as int],
                *sm == metadata_cleared(*old(sm), eid as nat).with_enclave(
                    eid as int,
                    enclave {
                        state: enclave_state::INVALID,
                        regions: regions_unused(e0.regions, i as nat),
                        ..e0
                    },
                ),
            decreases ENCLAVE_REGIONS_MAX - i,
        {
            proof {
                lemma_regions_unused(e0.regions, i as nat);
                lemma_metadata_cleared(*old(sm), eid as nat);
            }
            sm.enclaves[eid].regions[i].region_type = enclave_region_type::REGION_INVALID;
            proof {
                assert(sm.enclaves[eid as int].regions =~= regions_unused(
                    e0.regions,
                    (i + 1) as nat,
                ));
                assert(sm.enclaves =~= metadata_cleared(*old(sm), eid as nat).with_enclave(
                    eid as int,
                    enclave {
                        state: enclave_state::INVALID,
                        regions: regions_unused(e0.regions, (i + 1) as nat),
                        ..e0
                    },
                ).enclaves);
            }
            i += 1;
        }
        /* Fire all platform specific init for each enclave */
        let ghost cleared = *sm;
        platform_init_enclave(&mut sm.enclaves[eid]);
        proof {
            assert(sm.enclaves =~= cleared.enclaves);
            assert(cleared == metadata_cleared(*old(sm), (eid + 1) as nat));
        }
        eid += 1;
    }
    proof {
        lemma_metadata_cleared(*old(sm), ENCL_MAX as nat);
        assert forall|eid: int, i: int|
            0 <= eid < ENCL_MAX && 0 <= i < ENCLAVE_REGIONS_MAX implies (#[trigger] sm.enclaves[eid].regions[i]).region_type
            == enclave_region_type::REGION_INVALID by {
            lemma_regions_unused(old(sm).enclaves[eid].regions, 8);
        }
    }
}

/// What the monitor states of an enclave: its measurement, the data that
/// the enclave wants bound to it, and the monitor's signature over both.
#[derive(Clone, Copy, PartialEq, Eq, Debug)]
pub struct enclave_report {
    pub hash: [u8; 64],
    pub data_len: u64,
    pub data: [u8; 1024],
    pub signature: [u8; 64],
}

/// What the root of trust states of the monitor.
#[derive(Clone, Copy, PartialEq, Eq, Debug)]
pub struct sm_report {
    pub hash: [u8; 64],
    pub public_key: [u8; 32],
    pub signature: [u8; 64],
}

/// An attestation report.
#[derive(Clone, Copy, PartialEq, Eq, Debug)]
pub struct report {
    pub enclave: enclave_report,
    pub sm: sm_report,
    pub dev_public_key: [u8; 32],
}

/// A sealing key and the monitor's signature over it.
#[derive(Clone, Copy, PartialEq, Eq, Debug)]
pub struct sealing_key {
    pub key: [u8; 128],
    pub signature: [u8; 64],
}

impl report {
    /// A report with every byte zero.
    pub fn new() -> (r: Self)
        ensures
            r.enclave.data_len == 0,
            forall|i: int| 0 <= i < 64 ==> r.enclave.hash[i] == 0 && r.enclave.signature[i] == 0
                && r.sm.hash[i] == 0 && r.sm.signature[i] == 0,
            forall|i: int| 0 <= i < 1024 ==> r.enclave.data[i] == 0,
            forall|i: int| 0 <= i < 32 ==> r.sm.public_key[i] == 0 && r.dev_public_key[i] == 0,
    {
        report {
            enclave: enclave_report {
                hash: [0; 64],
                data_len: 0,
                data: [0; 1024],
                signature: [0; 64],
            },
            sm: sm_report { hash: [0; 64], public_key: [0; 32], signature: [0; 64] },
            dev_public_key: [0; 32],
        }
    }
}

impl sealing_key {
    /// A sealing key with every byte zero.
    pub fn new() -> (r: Self)
        ensures
            forall|i: int| 0 <= i < 128 ==> r.key[i] == 0,
            forall|i: int| 0 <= i < 64 ==> r.signature[i] == 0,
    {
        sealing_key { key: [0; 128], signature: [0; 64] }
    }
}

/// The number of data bytes of a report that count.
pub open spec fn report_data_len(r: enclave_report) -> int {
    if r.data_len <= ATTEST_DATA_MAXLEN {
        r.data_len as int
    } else {
        ATTEST_DATA_MAXLEN as int
    }
}

/// The bytes of an enclave's report that the monitor signs: the
/// measurement, the length of the data as a little-endian word, and the data.
pub open spec fn signed_bytes(r: enclave_report) -> Seq<u8> {
    r.hash@ + le_bytes(r.data_len) + r.data@.take(report_data_len(r))
}

/// The bytes of a report as a verifier receives them: the enclave's
/// report (measurement, length of the data as a little-endian word, the
/// whole data field, signature), the monitor's report (measurement,
/// public key, signature), and the public key of the device.
pub open spec fn report_bytes(r: report) -> Seq<u8> {
    r.enclave.hash@ + le_bytes(r.enclave.data_len) + r.enclave.data@ + r.enclave.signature@
        + r.sm.hash@ + r.sm.public_key@ + r.sm.signature@ + r.dev_public_key@
}

/// The bytes of `r` that the monitor signs.
pub fn enclave_report_message(r: &enclave_report) -> (out: Vec<u8>)
    ensures
        out@ == signed_bytes(*r),
{
    let n: usize = if r.data_len <= ATTEST_DATA_MAXLEN as u64 {
        r.data_len as usize
    } else {
        ATTEST_DATA_MAXLEN
    };
    let mut out: Vec<u8> = Vec::new();
    out.extend_from_slice(&r.hash);
    let len = word_to_le(r.data_len);
    out.extend_from_slice(&len);
    let part = vstd::slice::slice_subrange(r.data.as_slice(), 0, n);
    out.extend_from_slice(part);
    assert(out@ =~= signed_bytes(*r));
    out
}

/// The bytes of `r` as a verifier receives them.
pub fn report_to_bytes(r: &report) -> (out: Vec<u8>)
    ensures
        out@ == report_bytes(*r),
        out@.len() == 1352,
{
    let mut out: Vec<u8> = Vec::new();
    out.extend_from_slice(&r.enclave.hash);
    let len = word_to_le(r.enclave.data_len);
    out.extend_from_slice(&len);
    out.extend_from_slice(&r.enclave.data);
    out.extend_from_slice(&r.enclave.signature);
    out.extend_from_slice(&r.sm.hash);
    out.extend_from_slice(&r.sm.public_key);
    out.extend_from_slice(&r.sm.signature);
    out.extend_from_slice(&r.dev_public_key);
    assert(out@ =~= report_bytes(*r));
    out
}

impl security_monitor {
    /// The answer of `attest_enclave` to a request for enclave `eid` to
    /// bind `size` bytes of data, of which `have` could be read.
    pub open spec fn attest_status(&self, have: int, size: usize, eid: int) -> usize {
        if size > ATTEST_DATA_MAXLEN {
            SBI_ERR_SM_ENCLAVE_ILLEGAL_ARGUMENT
        } else if !self.attestable(eid) {
            SBI_ERR_SM_ENCLAVE_NOT_INITIALIZED
        } else if have < size {
            SBI_ERR_SM_ENCLAVE_NOT_ACCESSIBLE
        } else {
            SBI_ERR_SM_ENCLAVE_SUCCESS
        }
    }
}

/// Whether `r` is the report on enclave `e` with the first `size` bytes
/// of `data` bound to it, not yet signed: the data field is filled up with
/// zeros and the enclave's signature is all zero.
pub open spec fn is_report_of(r: report, keys: sm_keys, e: enclave, data: Seq<u8>, size: usize) -> bool {
    &&& r.enclave.hash == e.hash
    &&& r.enclave.data_len == size
    &&& r.enclave.data@ == Seq::new(
        ATTEST_DATA_MAXLEN as nat,
        |i: int| if i < size { data[i] } else { 0u8 },
    )
    &&& r.enclave.signature@ == Seq::new(SIGNATURE_SIZE as nat, |i: int| 0u8)
    &&& r.sm.hash == keys.sm_hash
    &&& r.sm.public_key == keys.sm_public_key
    &&& r.sm.signature == keys.sm_signature
    &&& r.dev_public_key == keys.dev_public_key
}

/// Makes the report on enclave `eid` with the first `size` bytes of `data`
/// bound to it, ready to be signed. `data` holds what could be read of the
/// bytes that the enclave named.
///
/// Fails with `SBI_ERR_SM_ENCLAVE_ILLEGAL_ARGUMENT` if `size` is more than
/// `ATTEST_DATA_MAXLEN`; else with `SBI_ERR_SM_ENCLAVE_NOT_INITIALIZED`
/// unless the enclave exists and has been measured; else with
/// `SBI_ERR_SM_ENCLAVE_NOT_ACCESSIBLE` if `data` is shorter than `size`. On
/// failure `report` is left as it was. The monitor does not change.
pub fn attest_enclave(
    sm: &security_monitor,
    report: &mut report,
    data: &[u8],
    size: usize,
    eid: enclave_id,
) -> (r: usize)
    ensures
        r == sm.attest_status(data@.len() as int, size, eid as int),
        r != SBI_ERR_SM_ENCLAVE_SUCCESS ==> *final(report) == *old(report),
        r == SBI_ERR_SM_ENCLAVE_SUCCESS ==> is_report_of(
            *final(report),
            sm.keys,
            sm.enclaves[eid as int],
            data@,
            size,
        ),
{
    if size > ATTEST_DATA_MAXLEN {
        return SBI_ERR_SM_ENCLAVE_ILLEGAL_ARGUMENT;
    }
    let attestable: bool = enclave_exists(&sm.enclaves, eid) && sm.enclaves[eid].state.order()
        >= enclave_state::FRESH.order();

    if !attestable {
        return SBI_ERR_SM_ENCLAVE_NOT_INITIALIZED;
    }
    /* copy data to be signed */
    if data.len() < size {
        return SBI_ERR_SM_ENCLAVE_NOT_ACCESSIBLE;
    }
    let mut out = report::new();
    let mut i: usize = 0;
    while i < size
        invariant
            i <= size <= ATTEST_DATA_MAXLEN,
            size <= data@.len(),
            forall|k: int| 0 <= k < i ==> out.enclave.data[k] == data@[k],
            forall|k: int| i <= k < ATTEST_DATA_MAXLEN ==> out.enclave.data[k] == 0,
            forall|k: int| 0 <= k < 64 ==> out.enclave.signature[k] == 0,
        decreases size - i,
    {
        out.enclave.data[i] = data[i];
        i += 1;
    }
    out.enclave.data_len = size as u64;

    out.dev_public_key = sm.keys.dev_public_key;
    out.sm.hash = sm.keys.sm_hash;
    out.sm.public_key = sm.keys.sm_public_key;
    out.sm.signature = sm.keys.sm_signature;
    out.enclave.hash = sm.enclaves[eid].hash;
    proof {
        assert(out.enclave.data@ =~= Seq::new(
            ATTEST_DATA_MAXLEN as nat,
            |i: int| if i < size { data@[i] } else { 0u8 },
        ));
        assert(out.enclave.signature@ =~= Seq::new(SIGNATURE_SIZE as nat, |i: int| 0u8));
    }
    *report = out;
    SBI_ERR_SM_ENCLAVE_SUCCESS
}

/// Derives the sealing key of enclave `eid` for the identifier in the first
/// `key_ident_size` bytes of `key_ident` into `seal_key`. The key is bound
/// to the enclave's measurement; its signature is left for the signer.
pub fn get_sealing_key(
    sm: &security_monitor,
    seal_key: &mut sealing_key,
    key_ident: &[u8],
    key_ident_size: usize,
    eid: enclave_id,
) -> (r: usize)
    requires
        eid < ENCL_MAX,
        key_ident_size <= key_ident@.len(),
    ensures
        r == SBI_ERR_SM_ENCLAVE_SUCCESS,
        final(seal_key).signature == old(seal_key).signature,
        forall|k: int|
            0 <= k < SEALING_KEY_SIZE ==> final(seal_key).key[k] == hkdf_byte(
                Seq::empty(),
                sm.keys.sm_private_key@,
                sealing_info(sm.enclaves[eid as int].hash@, key_ident@, key_ident_size as int),
                k,
            ),
{
    /* derive key */
    let ret = sm_derive_sealing_key(
        &sm.keys,
        &mut seal_key.key,
        key_ident,
        key_ident_size,
        &sm.enclaves[eid].hash,
    );
    if ret != 0 {
        return SBI_ERR_SM_ENCLAVE_UNKNOWN_ERROR;
    }
    SBI_ERR_SM_ENCLAVE_SUCCESS
}

/// No enclave is entered for the first time unless it is fresh, and none is
/// destroyed while it runs; and an enclave that can be resumed or left is
/// not fresh, so an enclave is entered with its entry parameters once at most.
pub proof fn lemma_lifecycle_guards(sm: security_monitor, eid: int)
    requires
        sm.wf(),
    ensures
        sm.runnable(eid) ==> sm.enclaves[eid].state == enclave_state::FRESH,
        sm.destroyable(eid) ==> sm.enclaves[eid].state != enclave_state::RUNNING,
        sm.running(eid) ==> !sm.destroyable(eid) && !sm.runnable(eid),
        sm.resumable(eid) ==> sm.enclaves[eid].state == enclave_state::STOPPED,
        sm.attestable(eid) ==> sm.enclaves[eid].state == enclave_state::FRESH
            || sm.enclaves[eid].state == enclave_state::STOPPED || sm.enclaves[eid].state
            == enclave_state::RUNNING,
{
    if 0 <= eid < ENCL_MAX {
        assert(sm.enclaves[eid].wf());
    }
}

impl security_monitor {
    /// The monitor after `run_enclave` on enclave `eid`.
    pub open spec fn after_run(&self, m: machine, regs: sbi_trap_regs, eid: int) -> security_monitor {
        if self.runnable(eid) {
            monitor_entering(self.with_thread_started(eid), m, regs, eid)
        } else {
            *self
        }
    }

    /// The machine after `run_enclave` on enclave `eid`.
    pub open spec fn machine_after_run(&self, m: machine, eid: int) -> machine {
        if self.runnable(eid) {
            machine_entering(self.with_thread_started(eid), m, eid, true)
        } else {
            m
        }
    }

    /// The trap frame after `run_enclave` on enclave `eid`.
    pub open spec fn regs_after_run(&self, regs: sbi_trap_regs, eid: int) -> sbi_trap_regs {
        if self.runnable(eid) {
            regs_entering(self.with_thread_started(eid).enclaves[eid], regs, true)
        } else {
            regs
        }
    }

    /// The monitor after `resume_enclave` on enclave `eid`.
    pub open spec fn after_resume(&self, m: machine, regs: sbi_trap_regs, eid: int) -> security_monitor {
        if self.resumable(eid) {
            monitor_entering(self.with_thread_started(eid), m, regs, eid)
        } else {
            *self
        }
    }

    /// The machine after `resume_enclave` on enclave `eid`.
    pub open spec fn machine_after_resume(&self, m: machine, eid: int) -> machine {
        if self.resumable(eid) {
            machine_entering(self.with_thread_started(eid), m, eid, false)
        } else {
            m
        }
    }

    /// The trap frame after `resume_enclave` on enclave `eid`.
    pub open spec fn regs_after_resume(&self, regs: sbi_trap_regs, eid: int) -> sbi_trap_regs {
        if self.resumable(eid) {
            regs_entering(self.with_thread_started(eid).enclaves[eid], regs, false)
        } else {
            regs
        }
    }

    /// The monitor after `exit_enclave` or `stop_enclave` on enclave `eid`.
    pub open spec fn after_leave(
        &self,
        m: machine,
        regs: sbi_trap_regs,
        eid: int,
        return_on_resume: bool,
    ) -> security_monitor {
        if self.running(eid) {
            monitor_leaving(self.with_thread_stopped(eid), m, regs, eid, return_on_resume)
        } else {
            *self
        }
    }

    /// The machine after `exit_enclave` or `stop_enclave` on enclave `eid`.
    pub open spec fn machine_after_leave(&self, m: machine, eid: int) -> machine {
        if self.running(eid) {
            machine_leaving(self.with_thread_stopped(eid), m, eid)
        } else {
            m
        }
    }

    /// The trap frame after `exit_enclave` or `stop_enclave` on enclave `eid`.
    pub open spec fn regs_after_leave(&self, regs: sbi_trap_regs, eid: int) -> sbi_trap_regs {
        if self.running(eid) {
            regs_swapped(self.with_thread_stopped(eid).enclaves[eid].threads[0], regs)
        } else {
            regs
        }
    }
}

/// A request to create an enclave whose arguments are not in order is
/// answered with `SBI_ERR_SM_ENCLAVE_ILLEGAL_ARGUMENT` and leaves the
/// enclave table, the allocator with both its bitmaps, the machine and the
/// caller's id exactly as they were.
pub proof fn lemma_invalid_create_changes_nothing(
    sm0: security_monitor,
    m0: machine,
    eidptr0: usize,
    args: keystone_sbi_create,
    sm1: security_monitor,
    m1: machine,
    eidptr1: usize,
    r: usize,
)
    requires
        create_outcome(sm0, m0, eidptr0, args, sm1, m1, eidptr1, r),
        !create_args_valid(args),
    ensures
        r == SBI_ERR_SM_ENCLAVE_ILLEGAL_ARGUMENT,
        sm1 == sm0,
        sm1.enclaves == sm0.enclaves,
        sm1.pmp.region_def_bitmap == sm0.pmp.region_def_bitmap,
        sm1.pmp.reg_bitmap == sm0.pmp.reg_bitmap,
        m1 == m0,
        eidptr1 == eidptr0,
{
}

/// An enclave is destroyed only if it exists and does not run, and then
/// its slot is invalid and none of its regions is in use.
pub proof fn lemma_destroyed_is_invalid(
    sm0: security_monitor,
    m0: machine,
    eid: enclave_id,
    sm1: security_monitor,
    m1: machine,
    r: usize,
)
    requires
        sm0.wf(),
        destroy_outcome(sm0, m0, eid, sm1, m1, r),
        r == SBI_ERR_SM_ENCLAVE_SUCCESS,
    ensures
        sm0.enclave_exists(eid as int),
        sm0.enclaves[eid as int].state != enclave_state::RUNNING,
        sm1.enclaves[eid as int].state == enclave_state::INVALID,
        forall|i: int|
            0 <= i < ENCLAVE_REGIONS_MAX ==> (#[trigger] sm1.enclaves[eid as int].regions[i]).region_type
                == enclave_region_type::REGION_INVALID,
        !sm1.runnable(eid as int) && !sm1.resumable(eid as int) && !sm1.attestable(eid as int),
{
}

impl enclave {
    /// Whether the thread count fits the state; for callers that cannot
    /// state `wf` themselves.
    pub fn is_wf(&self) -> (r: bool)
        ensures
            r == self.wf(),
    {
        if self.state == enclave_state::RUNNING {
            1 <= self.n_thread && self.n_thread <= MAX_ENCL_THREADS
        } else {
            self.n_thread == 0
        }
    }
}

impl security_monitor {
    /// Whether the monitor is well formed; for callers that cannot state
    /// `wf` themselves.
    pub fn is_wf(&self) -> (r: bool)
        ensures
            r == self.wf(),
    {
        if !self.pmp.is_wf() {
            return false;
        }
        let mut eid: usize = 0;
        while eid < ENCL_MAX
            invariant
                eid <= ENCL_MAX,
                self.pmp.wf(),
                forall|k: int| 0 <= k < eid ==> (#[trigger] self.enclaves[k]).wf(),
            decreases ENCL_MAX - eid,
        {
            if !self.enclaves[eid].is_wf() {
                return false;
            }
            eid += 1;
        }
        true
    }
}

impl security_monitor {
    /// Whether place `i` of the regions of enclave `eid` holds a region.
    pub open spec fn region_in_use(&self, eid: int, i: int) -> bool {
        &&& 0 <= eid < ENCL_MAX
        &&& 0 <= i < ENCLAVE_REGIONS_MAX
        &&& self.enclaves[eid].regions[i].region_type != enclave_region_type::REGION_INVALID
    }

    /// The allocator's id of the region in place `i` of enclave `eid`.
    pub open spec fn region_of(&self, eid: int, i: int) -> int {
        self.enclaves[eid].regions[i].pmp_rid as int
    }

    /// Every region of an enclave that exists is a valid region of the
    /// allocator and belongs to that enclave alone, its private regions
    /// forbid overlap, and a free slot of the table holds no region
    /// beyond the two places that a new enclave fills.
    pub open spec fn owns_regions(&self) -> bool {
        &&& forall|eid: int, i: int|
            self.enclave_exists(eid) && #[trigger] self.region_in_use(eid, i) ==> self.pmp.valid(
                self.region_of(eid, i),
            )
        &&& forall|e1: int, i1: int, e2: int, i2: int|
            self.enclave_exists(e1) && self.enclave_exists(e2) && #[trigger] self.region_in_use(
                e1,
                i1,
            ) && #[trigger] self.region_in_use(e2, i2) && (e1 != e2 || i1 != i2) ==> self.region_of(
                e1,
                i1,
            ) != self.region_of(e2, i2)
        &&& forall|eid: int, i: int|
            self.enclave_exists(eid) && #[trigger] self.region_in_use(eid, i)
                && self.enclaves[eid].regions[i].region_type == enclave_region_type::REGION_EPM
                ==> self.pmp.regions[self.region_of(eid, i)].allow_overlap == 0
        &&& forall|eid: int, i: int|
            0 <= eid < ENCL_MAX && !self.enclave_exists(eid) && 2 <= i ==> !#[trigger] self.region_in_use(
                eid,
                i,
            )
    }
}

/// No two enclaves share private memory: the private regions of two
/// enclaves that exist, and two private regions of one enclave, have no
/// address in common.
pub proof fn lemma_private_memory_is_disjoint(
    sm: security_monitor,
    e1: int,
    i1: int,
    e2: int,
    i2: int,
    a: int,
)
    requires
        sm.wf(),
        sm.owns_regions(),
        sm.enclave_exists(e1),
        sm.enclave_exists(e2),
        sm.region_in_use(e1, i1),
        sm.region_in_use(e2, i2),
        sm.enclaves[e1].regions[i1].region_type == enclave_region_type::REGION_EPM,
        sm.enclaves[e2].regions[i2].region_type == enclave_region_type::REGION_EPM,
        e1 != e2 || i1 != i2,
    ensures
        !(sm.pmp.regions[sm.region_of(e1, i1)].contains(a) && sm.pmp.regions[sm.region_of(
            e2,
            i2,
        )].contains(a)),
{
    crate::pmp::lemma_regions_disjoint(sm.pmp, sm.region_of(e1, i1), sm.region_of(e2, i2), a);
}

/// A monitor in which no enclave exists and no slot holds a region owns its regions.
pub proof fn lemma_empty_table_owns_regions(sm: security_monitor)
    requires
        forall|eid: int| 0 <= eid < ENCL_MAX ==> !sm.enclave_exists(eid),
        forall|eid: int, i: int|
            0 <= eid < ENCL_MAX && 0 <= i < ENCLAVE_REGIONS_MAX ==> (#[trigger] sm.enclaves[eid].regions[i]).region_type
                == enclave_region_type::REGION_INVALID,
    ensures
        sm.owns_regions(),
{
}

/// Entering and leaving an enclave change neither the regions of any
/// enclave nor the allocator, so the enclaves keep their regions.
pub proof fn lemma_switch_keeps_ownership(sm: security_monitor, m: machine, regs: sbi_trap_regs, eid: int, flag: bool)
    requires
        sm.wf(),
        sm.owns_regions(),
    ensures
        sm.after_run(m, regs, eid).owns_regions(),
        sm.after_resume(m, regs, eid).owns_regions(),
        sm.after_leave(m, regs, eid, flag).owns_regions(),
{
    broadcast use vstd::array::group_array_axioms;

    lemma_same_regions_keep_ownership(sm, sm.after_run(m, regs, eid));
    lemma_same_regions_keep_ownership(sm, sm.after_resume(m, regs, eid));
    lemma_same_regions_keep_ownership(sm, sm.after_leave(m, regs, eid, flag));
}

proof fn lemma_same_regions_keep_ownership(before: security_monitor, after: security_monitor)
    requires
        before.owns_regions(),
        after.pmp == before.pmp,
        forall|k: int|
            0 <= k < ENCL_MAX ==> (#[trigger] after.enclaves[k]).regions == before.enclaves[k].regions
                && (after.enclaves[k].state == enclave_state::INVALID) == (before.enclaves[k].state
                == enclave_state::INVALID),
    ensures
        after.owns_regions(),
{
    assert forall|eid: int, i: int| #[trigger]
        after.region_in_use(eid, i) == before.region_in_use(eid, i) by {
        if 0 <= eid < ENCL_MAX {
            assert(after.enclaves[eid].regions == before.enclaves[eid].regions);
        }
    }
    assert forall|eid: int| after.enclave_exists(eid) == before.enclave_exists(eid) by {
        if 0 <= eid < ENCL_MAX {
            assert(after.enclaves[eid].regions == before.enclaves[eid].regions);
        }
    }
    assert forall|eid: int, i: int| #[trigger]
        after.region_of(eid, i) == before.region_of(eid, i) || !(0 <= eid < ENCL_MAX) by {
        if 0 <= eid < ENCL_MAX {
            assert(after.enclaves[eid].regions == before.enclaves[eid].regions);
        }
    }
    assert forall|eid: int, i: int|
        after.enclave_exists(eid) && #[trigger] after.region_in_use(eid, i) implies after.pmp.valid(
        after.region_of(eid, i),
    ) by {
        assert(before.region_in_use(eid, i));
    }
    assert forall|e1: int, i1: int, e2: int, i2: int|
        after.enclave_exists(e1) && after.enclave_exists(e2) && #[trigger] after.region_in_use(
            e1,
            i1,
        ) && #[trigger] after.region_in_use(e2, i2) && (e1 != e2 || i1 != i2) implies after.region_of(
        e1,
        i1,
    ) != after.region_of(e2, i2) by {
        assert(before.region_in_use(e1, i1) && before.region_in_use(e2, i2));
    }
    assert forall|eid: int, i: int|
        after.enclave_exists(eid) && #[trigger] after.region_in_use(eid, i)
            && after.enclaves[eid].regions[i].region_type
            == enclave_region_type::REGION_EPM implies after.pmp.regions[after.region_of(
        eid,
        i,
    )].allow_overlap == 0 by {
        assert(before.region_in_use(eid, i));
    }
    assert forall|eid: int, i: int|
        0 <= eid < ENCL_MAX && !after.enclave_exists(eid) && 2 <= i implies !#[trigger] after.region_in_use(
        eid,
        i,
    ) by {
        assert(!before.region_in_use(eid, i));
    }
}

/// Releasing regions leaves alone every region that is not among them.
proof fn lemma_release_keeps(pmp: pmp_table, regions: Seq<enclave_region>, n: nat, k: int)
    requires
        pmp.wf(),
        0 <= k < 16,
        forall|i: int|
            0 <= i < n && (#[trigger] regions[i]).region_type
                != enclave_region_type::REGION_INVALID ==> regions[i].pmp_rid != k,
    ensures
        pmp_after_release(pmp, regions, n).wf(),
        pmp_after_release(pmp, regions, n).valid(k) == pmp.valid(k),
        pmp_after_release(pmp, regions, n).regions[k] == pmp.regions[k],
    decreases n,
{
    if n > 0 {
        lemma_release_keeps(pmp, regions, (n - 1) as nat, k);
        let prev = pmp_after_release(pmp, regions, (n - 1) as nat);
        lemma_after_free(prev, regions[n - 1].pmp_rid as int);
        if cleared_on_destroy(regions[n - 1].region_type) {
            assert(regions[n - 1].pmp_rid != k);
        }
    } else {
    }
}

proof fn lemma_release_wf(pmp: pmp_table, regions: Seq<enclave_region>, n: nat)
    requires
        pmp.wf(),
    ensures
        pmp_after_release(pmp, regions, n).wf(),
    decreases n,
{
    if n > 0 {
        lemma_release_wf(pmp, regions, (n - 1) as nat);
        lemma_after_free(pmp_after_release(pmp, regions, (n - 1) as nat), regions[n - 1].pmp_rid as int);
    }
}

proof fn lemma_first_region_of(regions: Seq<enclave_region>, entype: enclave_region_type, k: int)
    requires
        0 <= k,
    ensures
        first_region_of(regions, entype, k) == -1 || (k <= first_region_of(regions, entype, k)
            < regions.len() && regions[first_region_of(regions, entype, k)].region_type == entype),
    decreases regions.len() - k,
{
    if k < regions.len() && regions[k].region_type != entype {
        lemma_first_region_of(regions, entype, k + 1);
    }
}

/// Destroying an enclave releases its own regions only, so the other
/// enclaves keep theirs.
pub proof fn lemma_destroy_keeps_ownership(
    sm0: security_monitor,
    m0: machine,
    eid: enclave_id,
    sm1: security_monitor,
    m1: machine,
    r: usize,
)
    requires
        sm0.wf(),
        sm0.owns_regions(),
        destroy_outcome(sm0, m0, eid, sm1, m1, r),
    ensures
        sm1.owns_regions(),
{
    broadcast use vstd::array::group_array_axioms;

    if sm0.destroyable(eid as int) {
        let e = sm0.enclaves[eid as int];
        lemma_regions_unused(e.regions, 8);
        let released = pmp_after_release(sm0.pmp, e.regions@, ENCLAVE_REGIONS_MAX as nat);
        lemma_release_wf(sm0.pmp, e.regions@, ENCLAVE_REGIONS_MAX as nat);
        let utm = e.region_index(enclave_region_type::REGION_UTM);
        lemma_first_region_of(e.regions@, enclave_region_type::REGION_UTM, 0);
        assert forall|k: int| 0 <= k < ENCL_MAX && k != eid implies #[trigger] sm1.enclaves[k]
            == sm0.enclaves[k] by {}
        assert forall|k: int, i: int| k != eid implies #[trigger] sm1.region_in_use(k, i)
            == sm0.region_in_use(k, i) by {
            if 0 <= k < ENCL_MAX {
                assert(sm1.enclaves[k] == sm0.enclaves[k]);
            }
        }
        assert forall|i: int| !#[trigger] sm1.region_in_use(eid as int, i) by {}
        assert(!sm1.enclave_exists(eid as int));
        // a region of another enclave is still what it was
        assert forall|k: int, i: int|
            k != eid && sm0.enclave_exists(k) && #[trigger] sm0.region_in_use(k, i) implies sm1.pmp.valid(
            sm0.region_of(k, i),
        ) && sm1.pmp.regions[sm0.region_of(k, i)] == sm0.pmp.regions[sm0.region_of(k, i)] by {
            let rid = sm0.region_of(k, i);
            assert(sm0.pmp.valid(rid));
            assert forall|j: int|
                0 <= j < ENCLAVE_REGIONS_MAX && (#[trigger] e.regions@[j]).region_type
                    != enclave_region_type::REGION_INVALID implies e.regions@[j].pmp_rid != rid by {
                assert(sm0.region_in_use(eid as int, j));
                assert(sm0.region_of(eid as int, j) != sm0.region_of(k, i));
            }
            lemma_release_keeps(sm0.pmp, e.regions@, ENCLAVE_REGIONS_MAX as nat, rid);
            if utm != -1 {
                assert(sm0.region_in_use(eid as int, utm));
                assert(sm0.region_of(eid as int, utm) != sm0.region_of(k, i));
                lemma_after_free(released, e.regions[utm].pmp_rid as int);
            }
        }
        assert forall|k: int, i: int|
            sm1.enclave_exists(k) && #[trigger] sm1.region_in_use(k, i) implies sm1.pmp.valid(
            sm1.region_of(k, i),
        ) by {
            assert(sm0.region_in_use(k, i));
        }
        assert forall|e1: int, i1: int, e2: int, i2: int|
            sm1.enclave_exists(e1) && sm1.enclave_exists(e2) && #[trigger] sm1.region_in_use(
                e1,
                i1,
            ) && #[trigger] sm1.region_in_use(e2, i2) && (e1 != e2 || i1 != i2) implies sm1.region_of(
            e1,
            i1,
        ) != sm1.region_of(e2, i2) by {
            assert(sm0.region_in_use(e1, i1) && sm0.region_in_use(e2, i2));
        }
        assert forall|k: int, i: int|
            sm1.enclave_exists(k) && #[trigger] sm1.region_in_use(k, i)
                && sm1.enclaves[k].regions[i].region_type
                == enclave_region_type::REGION_EPM implies sm1.pmp.regions[sm1.region_of(
            k,
            i,
        )].allow_overlap == 0 by {
            assert(sm0.region_in_use(k, i));
        }
        assert forall|k: int, i: int|
            0 <= k < ENCL_MAX && !sm1.enclave_exists(k) && 2 <= i implies !#[trigger] sm1.region_in_use(
            k,
            i,
        ) by {
            if k != eid {
                assert(!sm0.region_in_use(k, i));
            }
        }
    }
}

/// Creating an enclave gives it two regions that no enclave had, and a
/// creation that fails gives back what it took, so the enclaves keep
/// their regions.
pub proof fn lemma_create_keeps_ownership(
    sm0: security_monitor,
    m0: machine,
    eidptr0: usize,
    args: keystone_sbi_create,
    sm1: security_monitor,
    m1: machine,
    eidptr1: usize,
    r: usize,
)
    requires
        sm0.wf(),
        sm0.owns_regions(),
        create_outcome(sm0, m0, eidptr0, args, sm1, m1, eidptr1, r),
    ensures
        sm1.owns_regions(),
{
    broadcast use vstd::array::group_array_axioms;

    if sm0.create_early_status(args) == SBI_ERR_SM_ENCLAVE_SUCCESS {
        let eid = sm0.create_eid();
        let region = sm0.create_region();
        let shared = sm0.create_shared(args);
        let pmp1 = sm0.pmp_with_epm(args);
        let pmp2 = sm0.pmp_with_both(args);
        let slot = sm0.create_slot(m0, args);
        lemma_first_invalid_found(sm0.enclaves@, 0);
        lemma_after_init(
            sm0.pmp,
            args.epm_region.paddr,
            args.epm_region.size,
            pmp_priority::PMP_PRI_ANY,
            0,
        );
        lemma_after_init(
            pmp1,
            args.utm_region.paddr,
            args.utm_region.size,
            pmp_priority::PMP_PRI_BOTTOM,
            0,
        );
        lemma_after_free(pmp2, shared);
        lemma_after_free(pmp2.after_free(shared), region);
        assert(!sm0.enclave_exists(eid));
        assert(region != shared);
        assert forall|k: int| 0 <= k < ENCL_MAX && k != eid implies #[trigger] sm1.enclaves[k]
            == sm0.enclaves[k] by {}
        assert forall|k: int, i: int| k != eid implies #[trigger] sm1.region_in_use(k, i)
            == sm0.region_in_use(k, i) by {
            if 0 <= k < ENCL_MAX {
                assert(sm1.enclaves[k] == sm0.enclaves[k]);
            }
        }
        // the slot of the new enclave holds its two regions and nothing else
        assert(sm1.enclaves[eid].regions == slot.regions);
        assert(slot.regions[0] == (enclave_region {
            pmp_rid: region as i32,
            region_type: enclave_region_type::REGION_EPM,
        }));
        assert(slot.regions[1] == (enclave_region {
            pmp_rid: shared as i32,
            region_type: enclave_region_type::REGION_UTM,
        }));
        assert forall|i: int| 2 <= i < ENCLAVE_REGIONS_MAX implies !#[trigger] sm1.region_in_use(
            eid,
            i,
        ) by {
            assert(!sm0.region_in_use(eid, i));
            assert(slot.regions[i] == sm0.enclaves[eid].regions[i]);
        }
        // a region of another enclave is still what it was
        assert forall|k: int, i: int|
            k != eid && sm0.enclave_exists(k) && #[trigger] sm0.region_in_use(k, i) implies sm1.pmp.valid(
            sm0.region_of(k, i),
        ) && sm1.pmp.regions[sm0.region_of(k, i)] == sm0.pmp.regions[sm0.region_of(k, i)]
            && sm0.region_of(k, i) != region && sm0.region_of(k, i) != shared by {
            assert(sm0.pmp.valid(sm0.region_of(k, i)));
        }
        assert forall|k: int, i: int|
            sm1.enclave_exists(k) && #[trigger] sm1.region_in_use(k, i) implies sm1.pmp.valid(
            sm1.region_of(k, i),
        ) by {
            if k != eid {
                assert(sm0.region_in_use(k, i));
            }
        }
        assert forall|e1: int, i1: int, e2: int, i2: int|
            sm1.enclave_exists(e1) && sm1.enclave_exists(e2) && #[trigger] sm1.region_in_use(
                e1,
                i1,
            ) && #[trigger] sm1.region_in_use(e2, i2) && (e1 != e2 || i1 != i2) implies sm1.region_of(
            e1,
            i1,
        ) != sm1.region_of(e2, i2) by {
            if e1 != eid {
                assert(sm0.region_in_use(e1, i1));
            }
            if e2 != eid {
                assert(sm0.region_in_use(e2, i2));
            }
        }
        assert forall|k: int, i: int|
            sm1.enclave_exists(k) && #[trigger] sm1.region_in_use(k, i)
                && sm1.enclaves[k].regions[i].region_type
                == enclave_region_type::REGION_EPM implies sm1.pmp.regions[sm1.region_of(
            k,
            i,
        )].allow_overlap == 0 by {
            if k != eid {
                assert(sm0.region_in_use(k, i));
            }
        }
        assert forall|k: int, i: int|
            0 <= k < ENCL_MAX && !sm1.enclave_exists(k) && 2 <= i implies !#[trigger] sm1.region_in_use(
            k,
            i,
        ) by {
            if k != eid {
                assert(!sm0.region_in_use(k, i));
            }
        }
    }
}

proof fn lemma_first_invalid_found(enclaves: Seq<enclave>, k: int)
    requires
        0 <= k,
    ensures
        first_invalid(enclaves, k) >= enclaves.len() || (k <= first_invalid(enclaves, k)
            && enclaves[first_invalid(enclaves, k)].state == enclave_state::INVALID),
    decreases enclaves.len() - k,
{
    if k < enclaves.len() && enclaves[k].state != enclave_state::INVALID {
        lemma_first_invalid_found(enclaves, k + 1);
    }
}


/// An enclave that has been created is closed to the host: on every
/// started hart of the platform the entry of its private region grants
/// nothing and matches the addresses of the private region, and no other.
pub proof fn lemma_created_enclave_is_closed(
    sm0: security_monitor,
    m0: machine,
    eidptr0: usize,
    args: keystone_sbi_create,
    sm1: security_monitor,
    m1: machine,
    eidptr1: usize,
    r: usize,
    h: int,
    a: u64,
)
    requires
        sm0.wf(),
        create_outcome(sm0, m0, eidptr0, args, sm1, m1, eidptr1, r),
        r == SBI_ERR_SM_ENCLAVE_SUCCESS,
        0 <= h < crate::ipi::IPI_HARTS,
        m0.harts[h].started,
    ensures
        ({
            let rid = sm1.enclaves[eidptr1 as int].regions[0].pmp_rid as int;
            let reg = sm1.pmp.regions[rid].reg_idx as int;
            &&& sm1.enclaves[eidptr1 as int].regions[0].region_type
                == enclave_region_type::REGION_EPM
            &&& sm1.pmp.valid(rid)
            &&& sm1.pmp.regions[rid].addr == args.epm_region.paddr
            &&& sm1.pmp.regions[rid].size == args.epm_region.size
            &&& m1.harts[h].pmp_grants(reg) == PMP_NO_PERM
            &&& m1.harts[h].pmp_matches(reg, a) <==> args.epm_region.paddr <= a
                < args.epm_region.paddr + args.epm_region.size
        }),
{
    broadcast use vstd::array::group_array_axioms;

    assert(sm0.create_early_status(args) == SBI_ERR_SM_ENCLAVE_SUCCESS);
    let region = sm0.create_region();
    let pmp1 = sm0.pmp_with_epm(args);
    let pmp2 = sm0.pmp_with_both(args);
    lemma_after_init(
        sm0.pmp,
        args.epm_region.paddr,
        args.epm_region.size,
        pmp_priority::PMP_PRI_ANY,
        0,
    );
    lemma_after_init(
        pmp1,
        args.utm_region.paddr,
        args.utm_region.size,
        pmp_priority::PMP_PRI_BOTTOM,
        0,
    );
    crate::ipi::lemma_broadcast_upto(
        pmp2,
        m0.harts,
        region,
        true,
        PMP_NO_PERM,
        crate::ipi::IPI_HARTS as nat,
    );
    crate::pmp::lemma_set_entry_matches_region(pmp2, m0.harts[h], region, PMP_NO_PERM, a);
    assert(0u8 & 7 == 0) by (bit_vector);
    let slot = sm0.create_slot(m0, args);
    assert(sm1.enclaves[eidptr1 as int].regions == slot.regions);
}

} // verus!
