//! The hooks of the platform. This platform needs none of them to act.
use vstd::prelude::*;
use crate::enclave::enclave;
use crate::error_code::SBI_ERR_SM_ENCLAVE_SUCCESS;

verus! {

/// What the platform keeps with each enclave: nothing.
#[derive(Clone, Copy, PartialEq, Eq, Structural, Debug)]
pub struct platform_enclave_data {}

impl platform_enclave_data {
    pub fn new() -> (r: Self)
        ensures
            r == (platform_enclave_data {  }),
    {
        platform_enclave_data {  }
    }
}

/// Called when an enclave is created, before it is measured; the one hook that may fail.
pub fn platform_create_enclave(enclave: &mut enclave) -> (r: usize)
    ensures
        r == SBI_ERR_SM_ENCLAVE_SUCCESS,
        *final(enclave) == *old(enclave),
{
    SBI_ERR_SM_ENCLAVE_SUCCESS
}

/// Called when an enclave is destroyed, before its memory is cleared.
pub fn platform_destroy_enclave(enclave: &mut enclave)
    ensures
        *final(enclave) == *old(enclave),
{
}

/// Called once for each slot of the enclave table at start-up.
pub fn platform_init_enclave(enclave: &mut enclave)
    ensures
        *final(enclave) == *old(enclave),
{
}

/// Called when a hart leaves an enclave.
pub fn platform_switch_from_enclave(enclave: &mut enclave)
    ensures
        *final(enclave) == *old(enclave),
{
}

/// Called when a hart enters an enclave.
pub fn platform_switch_to_enclave(enclave: &mut enclave)
    ensures
        *final(enclave) == *old(enclave),
{
}

/// Called on every hart at start-up.
pub fn platform_init_global() -> (r: usize)
    ensures
        r == SBI_ERR_SM_ENCLAVE_SUCCESS,
{
    SBI_ERR_SM_ENCLAVE_SUCCESS
}

/// Called on the first hart at start-up.
pub fn platform_init_global_once() -> (r: usize)
    ensures
        r == SBI_ERR_SM_ENCLAVE_SUCCESS,
{
    SBI_ERR_SM_ENCLAVE_SUCCESS
}

} // verus!
