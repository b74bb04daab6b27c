//! The saved side of a context switch: while the host runs, the enclave's
//! registers; while the enclave runs, the host's.
use vstd::prelude::*;
use crate::machine::{hart_state, machine};
use crate::opensbi::{
    csr,
    csr_read,
    csr_write,
    MSTATUS_FS,
    MSTATUS_MPP,
    MSTATUS_MXR,
    MSTATUS_SIE,
    MSTATUS_SPIE,
    MSTATUS_SPP,
    MSTATUS_SUM,
};
use crate::sbi_trap::sbi_trap_regs;

verus! {

/// What is kept of the side that does not run.
#[derive(Clone, Copy, PartialEq, Eq, Structural, Debug)]
pub struct thread_state {
    pub prev_mpp: i32,
    pub prev_mepc: u64,
    pub prev_mstatus: u64,
    pub prev_csrs: csrs,
    pub prev_state: ctx,
}

impl thread_state {
    pub fn new() -> (r: Self)
        ensures
            r.prev_mpp == 0,
            r.prev_mepc == 0,
            r.prev_mstatus == 0,
            r.prev_csrs == zero_csrs(),
            r.prev_state == zero_ctx(),
    {
        thread_state {
            prev_mpp: 0,
            prev_mepc: 0,
            prev_mstatus: 0,
            prev_csrs: csrs::new(),
            prev_state: ctx::new(),
        }
    }
}

/// The general registers. `slot` takes the place of the register that is
/// always zero and says whether the side is to get a return value on resume.
#[derive(Clone, Copy, PartialEq, Eq, Structural, Debug)]
pub struct ctx {
    pub slot: u64,
    pub ra: u64,
    pub sp: u64,
    pub gp: u64,
    pub tp: u64,
    pub t0: u64,
    pub t1: u64,
    pub t2: u64,
    pub s0: u64,
    pub s1: u64,
    pub a0: u64,
    pub a1: u64,
    pub a2: u64,
    pub a3: u64,
    pub a4: u64,
    pub a5: u64,
    pub a6: u64,
    pub a7: u64,
    pub s2: u64,
    pub s3: u64,
    pub s4: u64,
    pub s5: u64,
    pub s6: u64,
    pub s7: u64,
    pub s8: u64,
    pub s9: u64,
    pub s10: u64,
    pub s11: u64,
    pub t3: u64,
    pub t4: u64,
    pub t5: u64,
    pub t6: u64,
}

/// The general registers all zero.
pub open spec fn zero_ctx() -> ctx {
    ctx {
        slot: 0,
        ra: 0,
        sp: 0,
        gp: 0,
        tp: 0,
        t0: 0,
        t1: 0,
        t2: 0,
        s0: 0,
        s1: 0,
        a0: 0,
        a1: 0,
        a2: 0,
        a3: 0,
        a4: 0,
        a5: 0,
        a6: 0,
        a7: 0,
        s2: 0,
        s3: 0,
        s4: 0,
        s5: 0,
        s6: 0,
        s7: 0,
        s8: 0,
        s9: 0,
        s10: 0,
        s11: 0,
        t3: 0,
        t4: 0,
        t5: 0,
        t6: 0,
    }
}

impl ctx {
    pub fn new() -> (r: Self)
        ensures
            r == zero_ctx(),
    {
        ctx {
            slot: 0,
            ra: 0,
            sp: 0,
            gp: 0,
            tp: 0,
            t0: 0,
            t1: 0,
            t2: 0,
            s0: 0,
            s1: 0,
            a0: 0,
            a1: 0,
            a2: 0,
            a3: 0,
            a4: 0,
            a5: 0,
            a6: 0,
            a7: 0,
            s2: 0,
            s3: 0,
            s4: 0,
            s5: 0,
            s6: 0,
            s7: 0,
            s8: 0,
            s9: 0,
            s10: 0,
            s11: 0,
            t3: 0,
            t4: 0,
            t5: 0,
            t6: 0,
        }
    }
}

/// The supervisor registers.
#[derive(Clone, Copy, PartialEq, Eq, Structural, Debug)]
pub struct csrs {
    /// Supervisor status register.
    pub sstatus: u64,
    /// Supervisor exception delegation register.
    pub sedeleg: u64,
    /// Supervisor interrupt delegation register.
    pub sideleg: u64,
    /// Supervisor interrupt-enable register.
    pub sie: u64,
    /// Supervisor trap handler base address.
    pub stvec: u64,
    /// Supervisor counter enable.
    pub scounteren: u64,
    /// Scratch register for supervisor trap handlers.
    pub sscratch: u64,
    /// Supervisor exception program counter.
    pub sepc: u64,
    /// Supervisor trap cause.
    pub scause: u64,
    /// Supervisor bad address.
    pub sbadaddr: u64,
    /// Supervisor interrupt pending.
    pub sip: u64,
    /// Page-table base register.
    pub satp: u64,
}

/// The supervisor registers all zero.
pub open spec fn zero_csrs() -> csrs {
    csrs {
        sstatus: 0,
        sedeleg: 0,
        sideleg: 0,
        sie: 0,
        stvec: 0,
        scounteren: 0,
        sscratch: 0,
        sepc: 0,
        scause: 0,
        sbadaddr: 0,
        sip: 0,
        satp: 0,
    }
}

impl csrs {
    pub fn new() -> (r: Self)
        ensures
            r == zero_csrs(),
    {
        csrs {
            sstatus: 0,
            sedeleg: 0,
            sideleg: 0,
            sie: 0,
            stvec: 0,
            scounteren: 0,
            sscratch: 0,
            sepc: 0,
            scause: 0,
            sbadaddr: 0,
            sip: 0,
            satp: 0,
        }
    }
}

/// The general registers of a trap frame.
pub open spec fn regs_ctx(regs: sbi_trap_regs) -> ctx {
    ctx {
        slot: regs.zero,
        ra: regs.ra,
        sp: regs.sp,
        gp: regs.gp,
        tp: regs.tp,
        t0: regs.t0,
        t1: regs.t1,
        t2: regs.t2,
        s0: regs.s0,
        s1: regs.s1,
        a0: regs.a0,
        a1: regs.a1,
        a2: regs.a2,
        a3: regs.a3,
        a4: regs.a4,
        a5: regs.a5,
        a6: regs.a6,
        a7: regs.a7,
        s2: regs.s2,
        s3: regs.s3,
        s4: regs.s4,
        s5: regs.s5,
        s6: regs.s6,
        s7: regs.s7,
        s8: regs.s8,
        s9: regs.s9,
        s10: regs.s10,
        s11: regs.s11,
        t3: regs.t3,
        t4: regs.t4,
        t5: regs.t5,
        t6: regs.t6,
    }
}

/// The trap frame `regs` with its general registers replaced by `c`.
pub open spec fn regs_with_ctx(regs: sbi_trap_regs, c: ctx) -> sbi_trap_regs {
    sbi_trap_regs {
        zero: c.slot,
        ra: c.ra,
        sp: c.sp,
        gp: c.gp,
        tp: c.tp,
        t0: c.t0,
        t1: c.t1,
        t2: c.t2,
        s0: c.s0,
        s1: c.s1,
        a0: c.a0,
        a1: c.a1,
        a2: c.a2,
        a3: c.a3,
        a4: c.a4,
        a5: c.a5,
        a6: c.a6,
        a7: c.a7,
        s2: c.s2,
        s3: c.s3,
        s4: c.s4,
        s5: c.s5,
        s6: c.s6,
        s7: c.s7,
        s8: c.s8,
        s9: c.s9,
        s10: c.s10,
        s11: c.s11,
        t3: c.t3,
        t4: c.t4,
        t5: c.t5,
        t6: c.t6,
        mepc: regs.mepc,
        mstatus: regs.mstatus,
        mstatusH: regs.mstatusH,
    }
}

/// The supervisor registers of a hart that a context switch exchanges, with
/// the two delegation registers, which it leaves alone, taken from `keep`.
pub open spec fn hart_csrs(hart: hart_state, keep: csrs) -> csrs {
    csrs {
        sstatus: hart.sstatus,
        sedeleg: keep.sedeleg,
        sideleg: keep.sideleg,
        sie: hart.sie,
        stvec: hart.stvec,
        scounteren: hart.scounteren,
        sscratch: hart.sscratch,
        sepc: hart.sepc,
        scause: hart.scause,
        sbadaddr: hart.sbadaddr,
        sip: hart.sip,
        satp: hart.satp,
    }
}

/// The hart with the supervisor registers that a context switch exchanges
/// replaced by those of `c`.
pub open spec fn hart_with_csrs(hart: hart_state, c: csrs) -> hart_state {
    hart_state {
        sstatus: c.sstatus,
        sie: c.sie,
        stvec: c.stvec,
        scounteren: c.scounteren,
        sscratch: c.sscratch,
        sepc: c.sepc,
        scause: c.scause,
        sbadaddr: c.sbadaddr,
        sip: c.sip,
        satp: c.satp,
        ..hart
    }
}

/// Makes the host's trap handler the trap vector of the executing hart.
pub fn switch_vector_host(m: &mut machine)
    requires
        old(m).wf(),
    ensures
        final(m).harts[old(m).hartid as int] == old(m).harts[old(m).hartid as int].with_csr(
            csr::mtvec,
            old(m).host_trap_vector,
        ),
        forall|h: int| 0 <= h < 16 && h != old(m).hartid ==> final(m).harts[h] == old(m).harts[h],
        *final(m) == (machine { harts: final(m).harts, ..*old(m) }),
{
    let v = m.host_trap_vector;
    let h = m.hartid;
    csr_write(&mut m.harts[h], csr::mtvec, v);
}

/// Makes the enclave-time trap handler the trap vector of the executing hart.
pub fn switch_vector_enclave(m: &mut machine)
    requires
        old(m).wf(),
    ensures
        final(m).harts[old(m).hartid as int] == old(m).harts[old(m).hartid as int].with_csr(
            csr::mtvec,
            old(m).enclave_trap_vector,
        ),
        forall|h: int| 0 <= h < 16 && h != old(m).hartid ==> final(m).harts[h] == old(m).harts[h],
        *final(m) == (machine { harts: final(m).harts, ..*old(m) }),
{
    let v = m.enclave_trap_vector;
    let h = m.hartid;
    csr_write(&mut m.harts[h], csr::mtvec, v);
}

/// Exchanges the saved program counter with `current_mepc`.
pub fn swap_prev_mepc(thread: &mut thread_state, regs: &mut sbi_trap_regs, current_mepc: u64)
    ensures
        *final(thread) == (thread_state { prev_mepc: current_mepc, ..*old(thread) }),
        *final(regs) == (sbi_trap_regs { mepc: old(thread).prev_mepc, ..*old(regs) }),
{
    let tmp: u64 = thread.prev_mepc;
    thread.prev_mepc = current_mepc;
    regs.mepc = tmp;
}

/// Swaps the entire s-mode visible state, general registers and then csrs.
/// The saved side keeps in `slot` whether it is to get a return value when
/// it resumes: 1 if `return_on_resume` is 0, else 0.
pub fn swap_prev_state(
    thread: &mut thread_state,
    regs: &mut sbi_trap_regs,
    hart: &mut hart_state,
    return_on_resume: u64,
)
    ensures
        *final(regs) == regs_with_ctx(*old(regs), old(thread).prev_state),
        *final(thread) == (thread_state {
            prev_state: ctx {
                slot: if return_on_resume == 0 { 1 } else { 0 },
                ..regs_ctx(*old(regs))
            },
            prev_csrs: hart_csrs(*old(hart), old(thread).prev_csrs),
            ..*old(thread)
        }),
        *final(hart) == hart_with_csrs(*old(hart), old(thread).prev_csrs),
{
    let prev = thread.prev_state;
    thread.prev_state = ctx {
        slot: if return_on_resume == 0 { 1 } else { 0 },
        ra: regs.ra,
        sp: regs.sp,
        gp: regs.gp,
        tp: regs.tp,
        t0: regs.t0,
        t1: regs.t1,
        t2: regs.t2,
        s0: regs.s0,
        s1: regs.s1,
        a0: regs.a0,
        a1: regs.a1,
        a2: regs.a2,
        a3: regs.a3,
        a4: regs.a4,
        a5: regs.a5,
        a6: regs.a6,
        a7: regs.a7,
        s2: regs.s2,
        s3: regs.s3,
        s4: regs.s4,
        s5: regs.s5,
        s6: regs.s6,
        s7: regs.s7,
        s8: regs.s8,
        s9: regs.s9,
        s10: regs.s10,
        s11: regs.s11,
        t3: regs.t3,
        t4: regs.t4,
        t5: regs.t5,
        t6: regs.t6,
    };
    regs.zero = prev.slot;
    regs.ra = prev.ra;
    regs.sp = prev.sp;
    regs.gp = prev.gp;
    regs.tp = prev.tp;
    regs.t0 = prev.t0;
    regs.t1 = prev.t1;
    regs.t2 = prev.t2;
    regs.s0 = prev.s0;
    regs.s1 = prev.s1;
    regs.a0 = prev.a0;
    regs.a1 = prev.a1;
    regs.a2 = prev.a2;
    regs.a3 = prev.a3;
    regs.a4 = prev.a4;
    regs.a5 = prev.a5;
    regs.a6 = prev.a6;
    regs.a7 = prev.a7;
    regs.s2 = prev.s2;
    regs.s3 = prev.s3;
    regs.s4 = prev.s4;
    regs.s5 = prev.s5;
    regs.s6 = prev.s6;
    regs.s7 = prev.s7;
    regs.s8 = prev.s8;
    regs.s9 = prev.s9;
    regs.s10 = prev.s10;
    regs.s11 = prev.s11;
    regs.t3 = prev.t3;
    regs.t4 = prev.t4;
    regs.t5 = prev.t5;
    regs.t6 = prev.t6;

    swap_prev_smode_csrs(thread, hart);
}

/// Swaps all s-mode csrs defined in 1.10 standard that the platforms support.
fn swap_prev_smode_csrs(thread: &mut thread_state, hart: &mut hart_state)
    ensures
        *final(thread) == (thread_state {
            prev_csrs: hart_csrs(*old(hart), old(thread).prev_csrs),
            ..*old(thread)
        }),
        *final(hart) == hart_with_csrs(*old(hart), old(thread).prev_csrs),
{
    let tmp: u64 = thread.prev_csrs.sstatus;
    thread.prev_csrs.sstatus = csr_read(hart, csr::sstatus);
    csr_write(hart, csr::sstatus, tmp);
    let tmp: u64 = thread.prev_csrs.sie;
    thread.prev_csrs.sie = csr_read(hart, csr::sie);
    csr_write(hart, csr::sie, tmp);
    let tmp: u64 = thread.prev_csrs.stvec;
    thread.prev_csrs.stvec = csr_read(hart, csr::stvec);
    csr_write(hart, csr::stvec, tmp);
    let tmp: u64 = thread.prev_csrs.scounteren;
    thread.prev_csrs.scounteren = csr_read(hart, csr::scounteren);
    csr_write(hart, csr::scounteren, tmp);
    let tmp: u64 = thread.prev_csrs.sscratch;
    thread.prev_csrs.sscratch = csr_read(hart, csr::sscratch);
    csr_write(hart, csr::sscratch, tmp);
    let tmp: u64 = thread.prev_csrs.sepc;
    thread.prev_csrs.sepc = csr_read(hart, csr::sepc);
    csr_write(hart, csr::sepc, tmp);
    let tmp: u64 = thread.prev_csrs.scause;
    thread.prev_csrs.scause = csr_read(hart, csr::scause);
    csr_write(hart, csr::scause, tmp);
    let tmp: u64 = thread.prev_csrs.sbadaddr;
    thread.prev_csrs.sbadaddr = csr_read(hart, csr::sbadaddr);
    csr_write(hart, csr::sbadaddr, tmp);
    let tmp: u64 = thread.prev_csrs.sip;
    thread.prev_csrs.sip = csr_read(hart, csr::sip);
    csr_write(hart, csr::sip, tmp);
    let tmp: u64 = thread.prev_csrs.satp;
    thread.prev_csrs.satp = csr_read(hart, csr::satp);
    csr_write(hart, csr::satp, tmp);
}

/// Clears the saved side: general registers and supervisor registers zero,
/// but for the counter enable, which is taken from the hart.
pub fn clean_state(state: &mut thread_state, hart: &hart_state)
    ensures
        *final(state) == (thread_state {
            prev_mpp: -1i32,
            prev_state: zero_ctx(),
            prev_csrs: csrs { scounteren: hart.scounteren, ..zero_csrs() },
            ..*old(state)
        }),
{
    state.prev_state = ctx::new();
    state.prev_mpp = -1;  // 0x800;
    clean_smode_csrs(state, hart);
}

fn clean_smode_csrs(state: &mut thread_state, hart: &hart_state)
    ensures
        *final(state) == (thread_state {
            prev_csrs: csrs { scounteren: hart.scounteren, ..zero_csrs() },
            ..*old(state)
        }),
{
    state.prev_csrs.sstatus = 0;

    // We can't read these or set these from M-mode?
    state.prev_csrs.sedeleg = 0;
    state.prev_csrs.sideleg = 0;

    state.prev_csrs.sie = 0;
    state.prev_csrs.stvec = 0;
    // For now we take whatever the OS was doing
    state.prev_csrs.scounteren = csr_read(hart, csr::scounteren);
    state.prev_csrs.sscratch = 0;
    state.prev_csrs.sepc = 0;
    state.prev_csrs.scause = 0;
    state.prev_csrs.sbadaddr = 0;
    state.prev_csrs.sip = 0;
    state.prev_csrs.satp = 0;
}

/// The bits of `mstatus` that belong to the side that runs.
pub const MSTATUS_SWAP_MASK: u64 = 0x000c7922;

/// Exchanges the saved status with `current_mstatus`: the trap frame gets the
/// saved status on top of the bits of `current_mstatus` that do not belong
/// to a side.
pub fn swap_prev_mstatus(thread: &mut thread_state, regs: &mut sbi_trap_regs, current_mstatus: u64)
    ensures
        *final(thread) == (thread_state { prev_mstatus: current_mstatus, ..*old(thread) }),
        *final(regs) == (sbi_trap_regs {
            mstatus: (current_mstatus & !MSTATUS_SWAP_MASK) | old(thread).prev_mstatus,
            ..*old(regs)
        }),
{
    //Time interrupts can occur in either user mode or supervisor mode
    let mstatus_mask: u64 = MSTATUS_SIE | MSTATUS_SPIE | MSTATUS_SPP | MSTATUS_MPP | MSTATUS_FS
        | MSTATUS_SUM | MSTATUS_MXR;
    assert(0x2u64 | 0x20u64 | 0x100u64 | 0x1800u64 | 0x6000u64 | 0x40000u64 | 0x80000u64 == 0xc7922u64)
        by (bit_vector);
    assert((current_mstatus & !mstatus_mask) | (current_mstatus & mstatus_mask) == current_mstatus)
        by (bit_vector);

    let tmp: u64 = thread.prev_mstatus;
    thread.prev_mstatus = (current_mstatus & !mstatus_mask) | (current_mstatus & mstatus_mask);
    regs.mstatus = (current_mstatus & !mstatus_mask) | tmp;
}

} // verus!
