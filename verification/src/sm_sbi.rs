//! The calls that the host and the enclaves make, as they arrive in a trap.
use vstd::prelude::*;
use crate::cpu::cpu_get_enclave_id;
use crate::crypt::hkdf_sha3::hkdf_byte;
use crate::enclave::{
    attest_enclave,
    create_enclave,
    create_outcome,
    destroy_enclave,
    destroy_outcome,
    ENCL_MAX,
    exit_enclave,
    get_sealing_key,
    is_report_of,
    report,
    resume_enclave,
    run_enclave,
    sealing_key,
    SEALING_KEY_SIZE,
    stop_answer,
    STOP_EDGE_CALL_HOST,
    stop_enclave,
};
use crate::error_code::{
    SBI_ERR_SM_ENCLAVE_INVALID_ID,
    SBI_ERR_SM_ENCLAVE_NOT_FRESH,
    SBI_ERR_SM_ENCLAVE_NOT_RESUMABLE,
    SBI_ERR_SM_ENCLAVE_NOT_RUNNING,
    SBI_ERR_SM_ENCLAVE_REGION_OVERLAPS,
    SBI_ERR_SM_ENCLAVE_SUCCESS,
};
use crate::machine::machine;
use crate::sbi_trap::sbi_trap_regs;
use crate::sm::{keystone_sbi_create, sealing_info, security_monitor};

verus! {

/// `mepc` moved past the instruction that made the call.
pub open spec fn next_pc(mepc: u64) -> u64 {
    if mepc <= u64::MAX - 4 {
        (mepc + 4) as u64
    } else {
        (mepc + 4 - 0x1_0000_0000_0000_0000) as u64
    }
}

/// The host asks for an enclave. `create_args` holds the arguments if they
/// could be read from the host's memory; if not, the answer is
/// `SBI_ERR_SM_ENCLAVE_REGION_OVERLAPS` and nothing changes.
pub fn sbi_sm_create_enclave(
    sm: &mut security_monitor,
    m: &mut machine,
    eid: &mut usize,
    create_args: Option<keystone_sbi_create>,
) -> (r: usize)
    requires
        old(sm).wf(),
        old(m).wf(),
    ensures
        final(sm).wf(),
        final(m).wf(),
        match create_args {
            None => r == SBI_ERR_SM_ENCLAVE_REGION_OVERLAPS && *final(sm) == *old(sm) && *final(m)
                == *old(m) && *final(eid) == *old(eid),
            Some(args) => create_outcome(
                *old(sm),
                *old(m),
                *old(eid),
                args,
                *final(sm),
                *final(m),
                *final(eid),
                r,
            ),
        },
{
    match create_args {
        None => SBI_ERR_SM_ENCLAVE_REGION_OVERLAPS,
        Some(create_args_local) => create_enclave(sm, m, eid, create_args_local),
    }
}

/// The host asks to destroy enclave `eid`; see `destroy_enclave`.
pub fn sbi_sm_destroy_enclave(sm: &mut security_monitor, m: &mut machine, eid: usize) -> (r: usize)
    requires
        old(sm).wf(),
    ensures
        destroy_outcome(*old(sm), *old(m), eid, *final(sm), *final(m), r),
        final(sm).wf(),
{
    destroy_enclave(sm, m, eid)
}

/// The host asks to enter enclave `eid` for the first time. The answer of
/// `run_enclave` goes to register `a0` of the side that runs next, which
/// continues behind the call. Returns 0.
pub fn sbi_sm_run_enclave(
    sm: &mut security_monitor,
    m: &mut machine,
    regs: &mut sbi_trap_regs,
    eid: usize,
) -> (r: usize)
    requires
        old(sm).wf(),
        old(m).wf(),
    ensures
        r == 0,
        final(sm).wf(),
        final(m).wf(),
        *final(sm) == old(sm).after_run(*old(m), *old(regs), eid as int),
        *final(m) == old(sm).machine_after_run(*old(m), eid as int),
        *final(regs) == (sbi_trap_regs {
            a0: if old(sm).runnable(eid as int) {
                SBI_ERR_SM_ENCLAVE_SUCCESS as u64
            } else {
                SBI_ERR_SM_ENCLAVE_NOT_FRESH as u64
            },
            mepc: next_pc(old(sm).regs_after_run(*old(regs), eid as int).mepc),
            ..old(sm).regs_after_run(*old(regs), eid as int)
        }),
{
    regs.a0 = run_enclave(sm, m, regs, eid) as u64;
    regs.mepc = regs.mepc.wrapping_add(4);
    0
}

/// The enclave that runs on the executing hart has finished with
/// `retval`. The answer of `exit_enclave` goes to register `a0` and
/// `retval` to `a1` of the side that runs next. Returns 0.
pub fn sbi_sm_exit_enclave(
    sm: &mut security_monitor,
    m: &mut machine,
    regs: &mut sbi_trap_regs,
    retval: u64,
) -> (r: usize)
    requires
        old(sm).wf(),
        old(m).wf(),
    ensures
        r == 0,
        final(sm).wf(),
        final(m).wf(),
        ({
            let eid = old(sm).cpus[old(m).hartid as int].eid as int;
            &&& *final(sm) == old(sm).after_leave(*old(m), *old(regs), eid, false)
            &&& *final(m) == old(sm).machine_after_leave(*old(m), eid)
            &&& *final(regs) == (sbi_trap_regs {
                a0: if old(sm).running(eid) {
                    SBI_ERR_SM_ENCLAVE_SUCCESS as u64
                } else {
                    SBI_ERR_SM_ENCLAVE_NOT_RUNNING as u64
                },
                a1: retval,
                mepc: next_pc(old(sm).regs_after_leave(*old(regs), eid).mepc),
                ..old(sm).regs_after_leave(*old(regs), eid)
            })
        }),
{
    let eid = cpu_get_enclave_id(&sm.cpus, m);
    regs.a0 = exit_enclave(sm, m, regs, eid) as u64;
    regs.a1 = retval;
    regs.mepc = regs.mepc.wrapping_add(4);
    0
}

/// The enclave that runs on the executing hart is stopped for the reason
/// `request`. The answer of `stop_enclave` goes to register `a0` of the
/// side that runs next. Returns 0.
pub fn sbi_sm_stop_enclave(
    sm: &mut security_monitor,
    m: &mut machine,
    regs: &mut sbi_trap_regs,
    request: u64,
) -> (r: usize)
    requires
        old(sm).wf(),
        old(m).wf(),
    ensures
        r == 0,
        final(sm).wf(),
        final(m).wf(),
        ({
            let eid = old(sm).cpus[old(m).hartid as int].eid as int;
            &&& *final(sm) == old(sm).after_leave(
                *old(m),
                *old(regs),
                eid,
                request == STOP_EDGE_CALL_HOST,
            )
            &&& *final(m) == old(sm).machine_after_leave(*old(m), eid)
            &&& *final(regs) == (sbi_trap_regs {
                a0: if old(sm).running(eid) {
                    stop_answer(request) as u64
                } else {
                    SBI_ERR_SM_ENCLAVE_NOT_RUNNING as u64
                },
                mepc: next_pc(old(sm).regs_after_leave(*old(regs), eid).mepc),
                ..old(sm).regs_after_leave(*old(regs), eid)
            })
        }),
{
    let eid = cpu_get_enclave_id(&sm.cpus, m);
    regs.a0 = stop_enclave(sm, m, regs, request, eid) as u64;
    regs.mepc = regs.mepc.wrapping_add(4);
    0
}

/// The host asks to enter enclave `eid` again. The answer of
/// `resume_enclave` goes to register `a0` of the side that runs next,
/// unless that side is an enclave that waits for the return value of a
/// call to the host, which its slot for the zero register tells. Returns 0.
pub fn sbi_sm_resume_enclave(
    sm: &mut security_monitor,
    m: &mut machine,
    regs: &mut sbi_trap_regs,
    eid: usize,
) -> (r: usize)
    requires
        old(sm).wf(),
        old(m).wf(),
    ensures
        r == 0,
        final(sm).wf(),
        final(m).wf(),
        *final(sm) == old(sm).after_resume(*old(m), *old(regs), eid as int),
        *final(m) == old(sm).machine_after_resume(*old(m), eid as int),
        ({
            let after = old(sm).regs_after_resume(*old(regs), eid as int);
            *final(regs) == (sbi_trap_regs {
                a0: if after.zero == 0 {
                    if old(sm).resumable(eid as int) {
                        SBI_ERR_SM_ENCLAVE_SUCCESS as u64
                    } else {
                        SBI_ERR_SM_ENCLAVE_NOT_RESUMABLE as u64
                    }
                } else {
                    after.a0
                },
                mepc: next_pc(after.mepc),
                ..after
            })
        }),
{
    let ret = resume_enclave(sm, m, regs, eid);
    if regs.zero == 0 {
        regs.a0 = ret as u64;
    }
    regs.mepc = regs.mepc.wrapping_add(4);
    0
}

/// The enclave that runs on the executing hart asks for a report; see `attest_enclave`.
pub fn sbi_sm_attest_enclave(
    sm: &security_monitor,
    m: &machine,
    report: &mut report,
    data: &[u8],
    size: usize,
) -> (r: usize)
    requires
        m.wf(),
    ensures
        r == sm.attest_status(data@.len() as int, size, sm.cpus[m.hartid as int].eid as int),
        r != SBI_ERR_SM_ENCLAVE_SUCCESS ==> *final(report) == *old(report),
        r == SBI_ERR_SM_ENCLAVE_SUCCESS ==> is_report_of(
            *final(report),
            sm.keys,
            sm.enclaves[sm.cpus[m.hartid as int].eid as int],
            data@,
            size,
        ),
{
    attest_enclave(sm, report, data, size, cpu_get_enclave_id(&sm.cpus, m))
}

/// The enclave that runs on the executing hart asks for a sealing key; see
/// `get_sealing_key`. Fails with `SBI_ERR_SM_ENCLAVE_INVALID_ID`, changing
/// nothing, if the hart's record names no slot of the table.
pub fn sbi_sm_get_sealing_key(
    sm: &security_monitor,
    m: &machine,
    seal_key: &mut sealing_key,
    key_ident: &[u8],
    key_ident_size: usize,
) -> (r: usize)
    requires
        m.wf(),
        key_ident_size <= key_ident@.len(),
    ensures
        r == if sm.cpus[m.hartid as int].eid < ENCL_MAX {
            SBI_ERR_SM_ENCLAVE_SUCCESS
        } else {
            SBI_ERR_SM_ENCLAVE_INVALID_ID
        },
        final(seal_key).signature == old(seal_key).signature,
        r != SBI_ERR_SM_ENCLAVE_SUCCESS ==> *final(seal_key) == *old(seal_key),
        r == SBI_ERR_SM_ENCLAVE_SUCCESS ==> forall|k: int|
            0 <= k < SEALING_KEY_SIZE ==> final(seal_key).key[k] == hkdf_byte(
                Seq::empty(),
                sm.keys.sm_private_key@,
                sealing_info(
                    sm.enclaves[sm.cpus[m.hartid as int].eid as int].hash@,
                    key_ident@,
                    key_ident_size as int,
                ),
                k,
            ),
{
    let eid = cpu_get_enclave_id(&sm.cpus, m);
    if eid >= ENCL_MAX {
        return SBI_ERR_SM_ENCLAVE_INVALID_ID;
    }
    get_sealing_key(sm, seal_key, key_ident, key_ident_size, eid)
}

/// A call of a plugin: there is none, and the answer is 0.
pub fn sbi_sm_call_plugin(plugin_id: u64, call_id: u64, arg0: u64, arg1: u64) -> (r: usize)
    ensures
        r == 0,
{
    0
}

} // verus!
