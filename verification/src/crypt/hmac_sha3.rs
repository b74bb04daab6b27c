//! HMAC with SHA3-512.
use vstd::prelude::*;
use crate::crypt::sha3::{
    absorb,
    digest,
    lemma_absorb_concat,
    rate,
    sha3,
    sha3_absorbed,
    Sha3Ctx,
    squeezed,
};

verus! {

/// Internal block length of SHA3-512 in bytes.
pub const SHA3_512_BLOCK_LEN: usize = 72;

/// Output length of SHA3-512 in bytes.
pub const SHA3_512_HASH_LEN: usize = 64;

/// The key brought to block length: a key longer than a block is replaced by
/// its digest, and what is shorter than a block is filled up with zeros.
pub open spec fn hmac_key(key: Seq<u8>) -> Seq<u8> {
    let k = if key.len() > SHA3_512_BLOCK_LEN {
        sha3(key, SHA3_512_HASH_LEN as int)
    } else {
        key
    };
    Seq::new(SHA3_512_BLOCK_LEN as nat, |i: int| if i < k.len() { k[i] } else { 0u8 })
}

/// Each byte of `key` xored with `pad`.
pub open spec fn xor_pad(key: Seq<u8>, pad: u8) -> Seq<u8> {
    Seq::new(key.len(), |i: int| key[i] ^ pad)
}

/// What the inner hash has absorbed once `text` is in.
pub open spec fn hmac_inner(key: Seq<u8>, text: Seq<u8>) -> Seq<u8> {
    xor_pad(hmac_key(key), 0x36) + text
}

/// The message of the outer hash, given the digest of the inner one.
pub open spec fn hmac_outer(key: Seq<u8>, inner_digest: Seq<u8>) -> Seq<u8> {
    xor_pad(hmac_key(key), 0x5c) + inner_digest
}

/// The HMAC of `text` under `key`.
pub open spec fn hmac(key: Seq<u8>, text: Seq<u8>) -> Seq<u8> {
    sha3(
        hmac_outer(key, sha3(hmac_inner(key, text), SHA3_512_HASH_LEN as int)),
        SHA3_512_HASH_LEN as int,
    )
}

/// An HMAC computation in progress: the inner hash and the block-length key.
pub struct HmacSha3Ctx {
    pub sha3_ctx: Sha3Ctx,
    pub key: [u8; 72],
}

/// Brings `key` to block length in `new_key`, which must come in as zeros.
fn prepare_key(key: &[u8], new_key: &mut [u8; 72])
    requires
        forall|i: int| 0 <= i < 72 ==> old(new_key)[i] == 0,
    ensures
        final(new_key)@ == hmac_key(key@),
{
    if key.len() > SHA3_512_BLOCK_LEN {
        let mut ctx = Sha3Ctx::new(SHA3_512_HASH_LEN);
        ctx.update(key);
        ctx.finalize(new_key);
    } else {
        let n = key.len();
        let mut i: usize = 0;
        while i < n
            invariant
                i <= n <= 72,
                n == key@.len(),
                forall|k: int| 0 <= k < i ==> new_key[k] == key@[k],
                forall|k: int| i <= k < 72 ==> new_key[k] == 0,
            decreases n - i,
        {
            new_key[i] = key[i];
            i += 1;
        }
    }
    assert(new_key@ =~= hmac_key(key@));
}

/// `key` with each byte xored with `pad`.
fn padded_key(key: &[u8; 72], pad: u8) -> (r: [u8; 72])
    ensures
        r@ == xor_pad(key@, pad),
{
    let mut temp_key: [u8; 72] = [0; 72];
    let mut i: usize = 0;
    while i < SHA3_512_BLOCK_LEN
        invariant
            i <= SHA3_512_BLOCK_LEN,
            forall|k: int| 0 <= k < i ==> temp_key[k] == key[k] ^ pad,
        decreases SHA3_512_BLOCK_LEN - i,
    {
        temp_key[i] = key[i] ^ pad;
        i += 1;
    }
    assert(temp_key@ =~= xor_pad(key@, pad));
    temp_key
}

impl HmacSha3Ctx {
    /// The inner hash is a SHA3-512 computation in progress.
    pub open spec fn wf(&self) -> bool {
        self.sha3_ctx.wf() && self.sha3_ctx.mdlen == SHA3_512_HASH_LEN
    }

    /// Whether the computation is the one under `key` that has taken in `text`.
    pub open spec fn holds(&self, key: Seq<u8>, text: Seq<u8>) -> bool {
        &&& self.wf()
        &&& self.key@ == hmac_key(key)
        &&& self.sha3_ctx.state() == sha3_absorbed(hmac_inner(key, text), SHA3_512_HASH_LEN as int)
    }

    /// Starts an HMAC computation under `key`.
    pub fn new(key: &[u8]) -> (r: Self)
        ensures
            r.holds(key@, Seq::empty()),
    {
        let mut ret = HmacSha3Ctx { sha3_ctx: Sha3Ctx::new(SHA3_512_HASH_LEN), key: [0; 72] };
        prepare_key(key, &mut ret.key);
        // XOR with ipad
        let temp_key = padded_key(&ret.key, 0x36);
        ret.sha3_ctx.update(&temp_key);
        assert(hmac_inner(key@, Seq::empty()) =~= xor_pad(hmac_key(key@), 0x36));
        ret
    }

    /// Takes in `text`.
    pub fn update(&mut self, text: &[u8])
        requires
            old(self).wf(),
        ensures
            final(self).wf(),
            final(self).key == old(self).key,
            final(self).sha3_ctx.state() == absorb(
                old(self).sha3_ctx.state(),
                rate(SHA3_512_HASH_LEN as int),
                text@,
            ),
            forall|key: Seq<u8>, t: Seq<u8>| #[trigger]
                old(self).holds(key, t) ==> final(self).holds(key, t + text@),
    {
        self.sha3_ctx.update(text);
        proof {
            assert forall|key: Seq<u8>, t: Seq<u8>| #[trigger] old(self).holds(key, t) implies self.holds(
                key,
                t + text@,
            ) by {
                lemma_absorb_concat(
                    crate::crypt::sha3::empty_sponge(),
                    rate(SHA3_512_HASH_LEN as int),
                    hmac_inner(key, t),
                    text@,
                );
                assert(hmac_inner(key, t + text@) =~= hmac_inner(key, t) + text@);
            }
        }
    }

    /// Finishes the computation and writes the HMAC to the front of `hash`:
    /// all 64 bytes, or as many as `hash` can take.
    pub fn finalize(&mut self, hash: &mut [u8])
        requires
            old(self).wf(),
        ensures
            final(self).key == old(self).key,
            final(self).sha3_ctx.mdlen == SHA3_512_HASH_LEN,
            final(self).sha3_ctx.rsiz == SHA3_512_BLOCK_LEN,
            final(self).sha3_ctx.pt == SHA3_512_HASH_LEN,
            final(self).sha3_ctx.st@ == squeezed(
                sha3_absorbed(
                    xor_pad(old(self).key@, 0x5c) + digest(
                        old(self).sha3_ctx.state(),
                        SHA3_512_BLOCK_LEN as int,
                        SHA3_512_HASH_LEN as int,
                    ),
                    SHA3_512_HASH_LEN as int,
                ),
                SHA3_512_BLOCK_LEN as int,
            ),
            final(hash)@.len() == old(hash)@.len(),
            forall|i: int|
                0 <= i < old(hash)@.len() ==> final(hash)@[i] == if i < SHA3_512_HASH_LEN {
                    sha3(
                        xor_pad(old(self).key@, 0x5c) + digest(
                            old(self).sha3_ctx.state(),
                            SHA3_512_BLOCK_LEN as int,
                            SHA3_512_HASH_LEN as int,
                        ),
                        SHA3_512_HASH_LEN as int,
                    )[i]
                } else {
                    old(hash)@[i]
                },
            forall|key: Seq<u8>, t: Seq<u8>| #[trigger]
                old(self).holds(key, t) ==> forall|i: int|
                    0 <= i < old(hash)@.len() && i < SHA3_512_HASH_LEN ==> final(hash)@[i] == hmac(
                        key,
                        t,
                    )[i],
    {
        let mut inner_hash: [u8; 64] = [0; 64];
        self.sha3_ctx.finalize(&mut inner_hash);
        let ghost inner = digest(
            old(self).sha3_ctx.state(),
            SHA3_512_BLOCK_LEN as int,
            SHA3_512_HASH_LEN as int,
        );
        assert(inner_hash@ =~= inner);
        let temp_key = padded_key(&self.key, 0x5c);

        self.sha3_ctx = Sha3Ctx::new(SHA3_512_HASH_LEN);
        self.sha3_ctx.update(&temp_key);
        self.sha3_ctx.update(&inner_hash);
        proof {
            lemma_absorb_concat(
                crate::crypt::sha3::empty_sponge(),
                rate(SHA3_512_HASH_LEN as int),
                temp_key@,
                inner_hash@,
            );
            crate::crypt::sha3::lemma_absorb_wf(
                crate::crypt::sha3::empty_sponge(),
                rate(SHA3_512_HASH_LEN as int),
                temp_key@ + inner_hash@,
            );
            lemma_absorb_pt(
                crate::crypt::sha3::empty_sponge(),
                rate(SHA3_512_HASH_LEN as int),
                temp_key@ + inner_hash@,
            );
        }
        self.sha3_ctx.finalize(hash);
    }
}

/// The place of the next byte moves on by one for each byte absorbed, round the rate.
pub proof fn lemma_absorb_pt(s: crate::crypt::sha3::sponge, rsiz: int, data: Seq<u8>)
    requires
        0 <= s.pt < rsiz,
    ensures
        absorb(s, rsiz, data).pt == (s.pt + data.len()) % rsiz,
    decreases data.len(),
{
    if data.len() > 0 {
        lemma_absorb_pt(s, rsiz, data.drop_last());
        let p = absorb(s, rsiz, data.drop_last()).pt;
        assert(p == (s.pt + data.len() - 1) % rsiz);
        assert(((s.pt + data.len() - 1) % rsiz + 1) % rsiz == (s.pt + data.len()) % rsiz) by {
            vstd::arithmetic::div_mod::lemma_add_mod_noop(s.pt + data.len() - 1, 1, rsiz);
            if rsiz == 1 {
            } else {
                vstd::arithmetic::div_mod::lemma_small_mod(1, rsiz as nat);
            }
        }
        if p + 1 >= rsiz {
            assert(p == rsiz - 1);
            vstd::arithmetic::div_mod::lemma_mod_self_0(rsiz);
        } else {
            vstd::arithmetic::div_mod::lemma_small_mod((p + 1) as nat, rsiz as nat);
        }
    } else {
        vstd::arithmetic::div_mod::lemma_small_mod(s.pt as nat, rsiz as nat);
    }
}

/// Writes the HMAC of `text` under `key` to the front of `hmac`: all 64 bytes,
/// or as many as `hmac` can take.
pub fn hmac_sha3(key: &[u8], text: &[u8], hmac: &mut [u8])
    ensures
        final(hmac)@.len() == old(hmac)@.len(),
        forall|i: int|
            0 <= i < old(hmac)@.len() ==> final(hmac)@[i] == if i < SHA3_512_HASH_LEN {
                self::hmac(key@, text@)[i]
            } else {
                old(hmac)@[i]
            },
{
    let mut ctx = HmacSha3Ctx::new(key);
    ctx.update(text);
    assert(Seq::<u8>::empty() + text@ =~= text@);
    assert(ctx.holds(key@, text@));
    ctx.finalize(hmac);
}

} // verus!
