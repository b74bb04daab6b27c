//! The measurement hash and the key derivation as the monitor calls them.
use vstd::prelude::*;
use crate::crypt::hkdf_sha3::{hkdf_byte, HKDF_MAX_LEN, hkdf_sha3_512};
use crate::crypt::sha3::{absorb, digest, empty_sponge, rate, Sha3Ctx, squeezed};
use crate::page::RISCV_PGSIZE;

verus! {

pub const MDSIZE: usize = 64;

pub const PUBLIC_KEY_SIZE: usize = 32;

pub const SIGNATURE_SIZE: usize = 64;

pub const PRIVATE_KEY_SIZE: usize = 64;

pub type hash_ctx = Sha3Ctx;

/// The rate of the measurement hash.
pub open spec fn hash_rate() -> int {
    rate(MDSIZE as int)
}

/// Starts a measurement.
pub fn hash_init(hash_ctx: &mut hash_ctx)
    ensures
        final(hash_ctx).wf(),
        final(hash_ctx).mdlen == MDSIZE,
        final(hash_ctx).state() == empty_sponge(),
{
    *hash_ctx = Sha3Ctx::new(MDSIZE);
}

/// Adds the first `len` bytes of `data` to the measurement.
pub fn hash_extend(hash_ctx: &mut hash_ctx, data: &[u8], len: usize)
    requires
        old(hash_ctx).wf(),
        len <= data@.len(),
    ensures
        final(hash_ctx).wf(),
        final(hash_ctx).mdlen == old(hash_ctx).mdlen,
        final(hash_ctx).state() == absorb(
            old(hash_ctx).state(),
            old(hash_ctx).rsiz as int,
            data@.take(len as int),
        ),
{
    let part = vstd::slice::slice_subrange(data, 0, len);
    assert(part@ =~= data@.take(len as int));
    hash_ctx.update(part);
}

/// Adds the page at the front of `data` to the measurement.
pub fn hash_extend_page(hash_ctx: &mut hash_ctx, data: &[u8])
    requires
        old(hash_ctx).wf(),
        RISCV_PGSIZE <= data@.len(),
    ensures
        final(hash_ctx).wf(),
        final(hash_ctx).mdlen == old(hash_ctx).mdlen,
        final(hash_ctx).state() == absorb(
            old(hash_ctx).state(),
            old(hash_ctx).rsiz as int,
            data@.take(RISCV_PGSIZE as int),
        ),
{
    let part = vstd::slice::slice_subrange(data, 0, RISCV_PGSIZE as usize);
    assert(part@ =~= data@.take(RISCV_PGSIZE as int));
    hash_ctx.update(part);
}

/// Finishes the measurement and writes it to the front of `md`.
pub fn hash_finalize(md: &mut [u8], hash_ctx: &mut hash_ctx)
    requires
        old(hash_ctx).wf(),
    ensures
        final(hash_ctx).st@ == squeezed(old(hash_ctx).state(), old(hash_ctx).rsiz as int),
        final(hash_ctx).pt == old(hash_ctx).pt,
        final(hash_ctx).rsiz == old(hash_ctx).rsiz,
        final(hash_ctx).mdlen == old(hash_ctx).mdlen,
        final(md)@.len() == old(md)@.len(),
        forall|i: int|
            0 <= i < old(md)@.len() ==> final(md)@[i] == if i < old(hash_ctx).mdlen {
                digest(
                    old(hash_ctx).state(),
                    old(hash_ctx).rsiz as int,
                    old(hash_ctx).mdlen as int,
                )[i]
            } else {
                old(md)@[i]
            },
{
    hash_ctx.finalize(md);
}

/// Fills `okm` with key material derived from `ikm`, `salt` and `info`. Fails
/// with -1, leaving `okm` as it was, if `okm` asks for more than 255 blocks.
pub fn kdf(salt: &[u8], ikm: &[u8], info: &[u8], okm: &mut [u8]) -> (r: i32)
    ensures
        r == if old(okm)@.len() > HKDF_MAX_LEN { -1i32 } else { 0 },
        final(okm)@.len() == old(okm)@.len(),
        r != 0 ==> final(okm)@ == old(okm)@,
        r == 0 ==> forall|k: int|
            0 <= k < old(okm)@.len() ==> final(okm)@[k] == hkdf_byte(salt@, ikm@, info@, k),
{
    hkdf_sha3_512(salt, ikm, info, okm) as i32
}

} // verus!
