//! The trap handler that is in place while an enclave runs.
use vstd::prelude::*;
use crate::enclave::{entry_mepc, STOP_TIMER_INTERRUPT};
use crate::error_code::SBI_ERR_SM_ENCLAVE_INTERRUPTED;
use crate::machine::machine;
use crate::opensbi::{
    CAUSE_ILLEGAL_INSTRUCTION,
    CAUSE_MACHINE_ECALL,
    CAUSE_MISALIGNED_LOAD,
    CAUSE_MISALIGNED_STORE,
    CAUSE_SUPERVISOR_ECALL,
    csr,
    csr_read,
    IRQ_M_SOFT,
    IRQ_M_TIMER,
};
use crate::sbi_trap::sbi_trap_regs;
use crate::sm::security_monitor;
use crate::sm_sbi::{next_pc, sbi_sm_stop_enclave};

verus! {

/// Representation of trap details
#[derive(Clone, Copy, PartialEq, Eq, Structural, Debug)]
pub struct sbi_trap_info {
    /// epc Trap program counter
    pub epc: u64,
    /// cause Trap exception cause
    pub cause: u64,
    /// tval Trap value
    pub tval: u64,
    /// tval2 Trap value 2
    pub tval2: u64,
    /// tinst Trap instruction
    pub tinst: u64,
}

/// What is left to do for a trap once the monitor has looked at it.
#[derive(Clone, Copy, PartialEq, Eq, Structural, Debug)]
pub enum trap_action {
    /// Nothing: the monitor has handled the trap.
    Done,
    /// Emulate the illegal instruction in `mtval`.
    IllegalInstruction { mtval: u64 },
    /// Emulate the misaligned load.
    MisalignedLoad { mtval: u64, mtval2: u64, mtinst: u64 },
    /// Emulate the misaligned store.
    MisalignedStore { mtval: u64, mtval2: u64, mtinst: u64 },
    /// Serve the call.
    Ecall,
    /// Hand the trap on to the mode it came from.
    Redirect { trap: sbi_trap_info },
    /// No one handles this interrupt: report it and stop.
    UnhandledInterrupt { mcause: u64 },
}

/// The bit of `mcause` that tells an interrupt from an exception.
pub const MCAUSE_INTERRUPT: u64 = 0x8000_0000_0000_0000;

/// What is left to do for the trap with cause `mcause` and value `mtval`
/// that arrived with the program counter `mepc`.
pub open spec fn trap_decision(mcause: u64, mtval: u64, mepc: u64) -> trap_action {
    if mcause & MCAUSE_INTERRUPT != 0 {
        let irq = mcause & !MCAUSE_INTERRUPT;
        if irq == IRQ_M_TIMER || irq == IRQ_M_SOFT {
            trap_action::Done
        } else {
            trap_action::UnhandledInterrupt { mcause: irq }
        }
    } else if mcause == CAUSE_ILLEGAL_INSTRUCTION {
        trap_action::IllegalInstruction { mtval }
    } else if mcause == CAUSE_MISALIGNED_LOAD {
        trap_action::MisalignedLoad { mtval, mtval2: 0, mtinst: 0 }
    } else if mcause == CAUSE_MISALIGNED_STORE {
        trap_action::MisalignedStore { mtval, mtval2: 0, mtinst: 0 }
    } else if mcause == CAUSE_SUPERVISOR_ECALL || mcause == CAUSE_MACHINE_ECALL {
        trap_action::Ecall
    } else {
        trap_action::Redirect {
            trap: sbi_trap_info { epc: mepc, cause: mcause, tval: mtval, tval2: 0, tinst: 0 },
        }
    }
}

/// Handles a trap taken while an enclave runs on the executing hart.
///
/// A machine timer or software interrupt stops the enclave as a timer
/// interrupt does: the hart goes back to the host, which finds
/// `SBI_ERR_SM_ENCLAVE_INTERRUPTED` in register `a0`. Any other trap
/// changes nothing here, and the answer tells what is left to do for it.
pub fn sbi_trap_handler_keystone_enclave(
    sm: &mut security_monitor,
    m: &mut machine,
    regs: &mut sbi_trap_regs,
) -> (r: trap_action)
    requires
        old(sm).wf(),
        old(m).wf(),
    ensures
        final(sm).wf(),
        final(m).wf(),
        r == trap_decision(
            old(m).harts[old(m).hartid as int].mcause,
            old(m).harts[old(m).hartid as int].mtval,
            old(regs).mepc,
        ),
        r != trap_action::Done ==> *final(sm) == *old(sm) && *final(m) == *old(m) && *final(regs)
            == *old(regs),
        r == trap_action::Done ==> {
            let eid = old(sm).cpus[old(m).hartid as int].eid as int;
            let before = sbi_trap_regs { mepc: entry_mepc(old(regs).mepc), ..*old(regs) };
            let after = old(sm).regs_after_leave(before, eid);
            &&& *final(sm) == old(sm).after_leave(*old(m), before, eid, false)
            &&& *final(m) == old(sm).machine_after_leave(*old(m), eid)
            &&& *final(regs) == (sbi_trap_regs {
                a0: SBI_ERR_SM_ENCLAVE_INTERRUPTED as u64,
                mepc: next_pc(next_pc(after.mepc)),
                ..after
            })
        },
{
    let h = m.hartid;
    let mut mcause: u64 = csr_read(&m.harts[h], csr::mcause);
    let mtval: u64 = csr_read(&m.harts[h], csr::mtval);
    let mtval2: u64 = 0;
    let mtinst: u64 = 0;

    if mcause & MCAUSE_INTERRUPT != 0 {
        mcause = mcause & !MCAUSE_INTERRUPT;
        if mcause == IRQ_M_TIMER || mcause == IRQ_M_SOFT {
            regs.mepc = regs.mepc.wrapping_sub(4);
            sbi_sm_stop_enclave(sm, m, regs, STOP_TIMER_INTERRUPT);
            regs.a0 = SBI_ERR_SM_ENCLAVE_INTERRUPTED as u64;
            regs.mepc = regs.mepc.wrapping_add(4);
            return trap_action::Done;
        } else {
            return trap_action::UnhandledInterrupt { mcause };
        }
    }
    if mcause == CAUSE_ILLEGAL_INSTRUCTION {
        trap_action::IllegalInstruction { mtval }
    } else if mcause == CAUSE_MISALIGNED_LOAD {
        trap_action::MisalignedLoad { mtval, mtval2, mtinst }
    } else if mcause == CAUSE_MISALIGNED_STORE {
        trap_action::MisalignedStore { mtval, mtval2, mtinst }
    } else if mcause == CAUSE_SUPERVISOR_ECALL || mcause == CAUSE_MACHINE_ECALL {
        trap_action::Ecall
    } else {
        /* If the trap came from S or U mode, redirect it there */
        trap_action::Redirect {
            trap: sbi_trap_info {
                epc: regs.mepc,
                cause: mcause,
                tval: mtval,
                tval2: mtval2,
                tinst: mtinst,
            },
        }
    }
}

} // verus!
