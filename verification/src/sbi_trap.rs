//! The register state that a trap saves.
use vstd::prelude::*;

verus! {

/// Representation of register state at time of trap/interrupt
#[derive(Clone, Copy, PartialEq, Eq, Structural, Debug)]
pub struct sbi_trap_regs {
    /// zero register state
    pub zero: u64,
    /// ra register state
    pub ra: u64,
    /// sp register state
    pub sp: u64,
    /// gp register state
    pub gp: u64,
    /// tp register state
    pub tp: u64,
    /// t0 register state
    pub t0: u64,
    /// t1 register state
    pub t1: u64,
    /// t2 register state
    pub t2: u64,
    /// s0 register state
    pub s0: u64,
    /// s1 register state
    pub s1: u64,
    /// a0 register state
    pub a0: u64,
    /// a1 register state
    pub a1: u64,
    /// a2 register state
    pub a2: u64,
    /// a3 register state
    pub a3: u64,
    /// a4 register state
    pub a4: u64,
    /// a5 register state
    pub a5: u64,
    /// a6 register state
    pub a6: u64,
    /// a7 register state
    pub a7: u64,
    /// s2 register state
    pub s2: u64,
    /// s3 register state
    pub s3: u64,
    /// s4 register state
    pub s4: u64,
    /// s5 register state
    pub s5: u64,
    /// s6 register state
    pub s6: u64,
    /// s7 register state
    pub s7: u64,
    /// s8 register state
    pub s8: u64,
    /// s9 register state
    pub s9: u64,
    /// s10 register state
    pub s10: u64,
    /// s11 register state
    pub s11: u64,
    /// t3 register state
    pub t3: u64,
    /// t4 register state
    pub t4: u64,
    /// t5 register state
    pub t5: u64,
    /// t6 register state
    pub t6: u64,
    /// mepc register state
    pub mepc: u64,
    /// mstatus register state
    pub mstatus: u64,
    /// mstatusH register state (only for 32-bit)
    pub mstatusH: u64,
}

impl sbi_trap_regs {
    /// A trap frame with every register zero.
    pub fn new() -> (r: Self)
        ensures
            r == (sbi_trap_regs {
                zero: 0,
                ra: 0,
                sp: 0,
                gp: 0,
                tp: 0,
                t0: 0,
                t1: 0,
                t2: 0,
                s0: 0,
                s1: 0,
                a0: 0,
                a1: 0,
                a2: 0,
                a3: 0,
                a4: 0,
                a5: 0,
                a6: 0,
                a7: 0,
                s2: 0,
                s3: 0,
                s4: 0,
                s5: 0,
                s6: 0,
                s7: 0,
                s8: 0,
                s9: 0,
                s10: 0,
                s11: 0,
                t3: 0,
                t4: 0,
                t5: 0,
                t6: 0,
                mepc: 0,
                mstatus: 0,
                mstatusH: 0,
            }),
    {
        sbi_trap_regs {
            zero: 0,
            ra: 0,
            sp: 0,
            gp: 0,
            tp: 0,
            t0: 0,
            t1: 0,
            t2: 0,
            s0: 0,
            s1: 0,
            a0: 0,
            a1: 0,
            a2: 0,
            a3: 0,
            a4: 0,
            a5: 0,
            a6: 0,
            a7: 0,
            s2: 0,
            s3: 0,
            s4: 0,
            s5: 0,
            s6: 0,
            s7: 0,
            s8: 0,
            s9: 0,
            s10: 0,
            s11: 0,
            t3: 0,
            t4: 0,
            t5: 0,
            t6: 0,
            mepc: 0,
            mstatus: 0,
            mstatusH: 0,
        }
    }
}

} // verus!
