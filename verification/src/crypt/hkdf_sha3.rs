//! HKDF with HMAC-SHA3-512.
use vstd::prelude::*;
use crate::crypt::hmac_sha3::{hmac, hmac_sha3, HmacSha3Ctx, SHA3_512_HASH_LEN};

verus! {

/// The longest output, in bytes, that one derivation gives.
pub const HKDF_MAX_LEN: usize = 16320;

/// Block `i` of the expansion: nothing for `i == 0`, and for `i >= 1` the HMAC
/// under `prk` of the block before it, then `info`, then the byte `i`.
pub open spec fn hkdf_t(prk: Seq<u8>, info: Seq<u8>, i: nat) -> Seq<u8>
    decreases i,
{
    if i == 0 {
        Seq::empty()
    } else {
        hmac(prk, hkdf_t(prk, info, (i - 1) as nat) + info + seq![i as u8])
    }
}

/// Byte `k` of the expansion of `prk` with `info`: the blocks from block 1 on, one after another.
pub open spec fn hkdf_expand_byte(prk: Seq<u8>, info: Seq<u8>, k: int) -> u8 {
    hkdf_t(prk, info, (k / 64 + 1) as nat)[k % 64]
}

/// Byte `k` of the key material derived from `ikm` with `salt` and `info`.
pub open spec fn hkdf_byte(salt: Seq<u8>, ikm: Seq<u8>, info: Seq<u8>, k: int) -> u8 {
    hkdf_expand_byte(hmac(salt, ikm), info, k)
}

/// Fills `okm` with key material derived from `ikm`, `salt` and `info`. Fails
/// with -1, leaving `okm` as it was, if `okm` asks for more than 255 blocks.
pub fn hkdf_sha3_512(salt: &[u8], ikm: &[u8], info: &[u8], okm: &mut [u8]) -> (r: isize)
    ensures
        r == if old(okm)@.len() > HKDF_MAX_LEN { -1isize } else { 0 },
        final(okm)@.len() == old(okm)@.len(),
        r != 0 ==> final(okm)@ == old(okm)@,
        r == 0 ==> forall|k: int|
            0 <= k < old(okm)@.len() ==> final(okm)@[k] == hkdf_byte(salt@, ikm@, info@, k),
{
    if okm.len() > 255 * SHA3_512_HASH_LEN {
        -1
    } else {
        let mut prk: [u8; 64] = [0; 64];
        hmac_sha3(salt, ikm, &mut prk);
        assert(prk@ =~= hmac(salt@, ikm@));
        hkdf_expand(&prk, info, okm)
    }
}

fn hkdf_expand(prk: &[u8; 64], info: &[u8], okm: &mut [u8]) -> (r: isize)
    ensures
        r == if old(okm)@.len() > HKDF_MAX_LEN { -1isize } else { 0 },
        final(okm)@.len() == old(okm)@.len(),
        r != 0 ==> final(okm)@ == old(okm)@,
        r == 0 ==> forall|k: int|
            0 <= k < old(okm)@.len() ==> final(okm)@[k] == hkdf_expand_byte(prk@, info@, k),
{
    let len = okm.len();
    if len > 255 * SHA3_512_HASH_LEN {
        return -1;
    }
    let n = (len + SHA3_512_HASH_LEN - 1) / SHA3_512_HASH_LEN;
    let mut t: [u8; 64] = [0; 64];
    // Compute T(1) - T(n) and copy resulting key to okm
    let mut i: usize = 1;
    while i <= n
        invariant
            1 <= i <= n + 1,
            n <= 255,
            len == okm@.len(),
            len == old(okm)@.len(),
            n == (len + 63) / 64,
            i > 1 ==> t@ == hkdf_t(prk@, info@, (i - 1) as nat),
            forall|k: int|
                0 <= k < len && k < (i - 1) * 64 ==> okm@[k] == hkdf_expand_byte(prk@, info@, k),
        decreases n + 1 - i,
    {
        let ghost prev = hkdf_t(prk@, info@, (i - 1) as nat);
        let mut ctx = HmacSha3Ctx::new(prk);
        if i > 1 {
            ctx.update(&t);
        }
        assert(Seq::<u8>::empty() + prev =~= prev);
        assert(ctx.holds(prk@, prev));
        let temp: [u8; 1] = [i as u8];
        ctx.update(info);
        ctx.update(&temp);
        assert(temp@ =~= seq![i as u8]);
        assert(ctx.holds(prk@, prev + info@ + seq![i as u8]));
        ctx.finalize(&mut t);
        assert(t@ =~= hkdf_t(prk@, info@, i as nat));

        let start = (i - 1) * SHA3_512_HASH_LEN;
        let mut j: usize = 0;
        while j < SHA3_512_HASH_LEN && start + j < len
            invariant
                j <= SHA3_512_HASH_LEN,
                start == (i - 1) * 64,
                1 <= i <= 255,
                len == okm@.len(),
                len <= HKDF_MAX_LEN,
                t@ == hkdf_t(prk@, info@, i as nat),
                forall|k: int|
                    0 <= k < len && k < start + j ==> okm@[k] == hkdf_expand_byte(prk@, info@, k),
            decreases SHA3_512_HASH_LEN - j,
        {
            okm[start + j] = t[j];
            assert((start + j) / 64 + 1 == i && (start + j) % 64 == j);
            j += 1;
        }
        i += 1;
    }
    0
}

} // verus!
