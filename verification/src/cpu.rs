//! Which enclave, if any, each hart is running.
use vstd::prelude::*;
use crate::enclave::enclave_id;
use crate::machine::machine;
use crate::opensbi::current_hartid;

verus! {

/// What one hart runs.
#[derive(Clone, Copy, PartialEq, Eq, Structural, Debug)]
pub struct cpu_state {
    pub is_enclave: i32,
    pub eid: enclave_id,
}

impl cpu_state {
    /// A hart that runs the host.
    pub fn new() -> (r: Self)
        ensures
            r == (cpu_state { is_enclave: 0, eid: 0 }),
    {
        cpu_state { is_enclave: 0, eid: 0 }
    }
}

/// Whether the executing hart runs an enclave: 1 if so, else 0.
pub fn cpu_is_enclave_context(cpus: &[cpu_state; 16], m: &machine) -> (r: i32)
    requires
        m.wf(),
    ensures
        r == cpus[m.hartid as int].is_enclave,
{
    cpus[current_hartid(m)].is_enclave
}

/// The enclave that the executing hart runs, or ran last.
pub fn cpu_get_enclave_id(cpus: &[cpu_state; 16], m: &machine) -> (r: enclave_id)
    requires
        m.wf(),
    ensures
        r == cpus[m.hartid as int].eid,
{
    cpus[current_hartid(m)].eid
}

/// Records that the executing hart runs enclave `eid`.
pub fn cpu_enter_enclave_context(cpus: &mut [cpu_state; 16], m: &machine, eid: enclave_id)
    requires
        m.wf(),
    ensures
        *final(cpus) == vstd::array::spec_array_update(
            *old(cpus),
            m.hartid as int,
            cpu_state { is_enclave: 1, eid },
        ),
{
    broadcast use vstd::array::group_array_axioms;

    let h = current_hartid(m);
    cpus[h].is_enclave = 1;
    cpus[h].eid = eid;
    assert(*cpus =~= vstd::array::spec_array_update(
        *old(cpus),
        m.hartid as int,
        cpu_state { is_enclave: 1, eid },
    ));
}

/// Records that the executing hart runs the host again.
pub fn cpu_exit_enclave_context(cpus: &mut [cpu_state; 16], m: &machine)
    requires
        m.wf(),
    ensures
        *final(cpus) == vstd::array::spec_array_update(
            *old(cpus),
            m.hartid as int,
            cpu_state { is_enclave: 0, eid: old(cpus)[m.hartid as int].eid },
        ),
{
    broadcast use vstd::array::group_array_axioms;

    let h = current_hartid(m);
    cpus[h].is_enclave = 0;
    assert(*cpus =~= vstd::array::spec_array_update(
        *old(cpus),
        m.hartid as int,
        cpu_state { is_enclave: 0, eid: old(cpus)[m.hartid as int].eid },
    ));
}

} // verus!
