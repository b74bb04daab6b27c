//! SHA-3: the Keccak-f[1600] permutation and the sponge built on it.
use vstd::prelude::*;

verus! {

pub const KECCAKF_ROUNDS: usize = 24;

/// The round constants.
pub const KECCAKF_RNDC: [u64; 24] = [
    0x0000000000000001,
    0x0000000000008082,
    0x800000000000808a,
    0x8000000080008000,
    0x000000000000808b,
    0x0000000080000001,
    0x8000000080008081,
    0x8000000000008009,
    0x000000000000008a,
    0x0000000000000088,
    0x0000000080008009,
    0x000000008000000a,
    0x000000008000808b,
    0x800000000000008b,
    0x8000000000008089,
    0x8000000000008003,
    0x8000000000008002,
    0x8000000000000080,
    0x000000000000800a,
    0x800000008000000a,
    0x8000000080008081,
    0x8000000000008080,
    0x0000000080000001,
    0x8000000080008008,
];

/// For each lane, the lane that the steps rho and pi move into it.
pub const KECCAKF_PISRC: [usize; 25] = [
    0, 6, 12, 18, 24, 3, 9, 10, 16, 22, 1, 7, 13, 19, 20, 4, 5, 11, 17, 23, 2, 8, 14, 15, 21,
];

/// For each lane, how far the lane moved into it is rotated on the way.
pub const KECCAKF_RHO: [u32; 25] = [
    0, 44, 43, 21, 14, 28, 20, 3, 45, 61, 1, 6, 25, 8, 18, 27, 36, 10, 15, 56, 62, 55, 39, 41, 2,
];

/// `x` rotated left by `y` bits, for `0 < y < 64`.
pub open spec fn rotl(x: u64, y: u64) -> u64 {
    (x << y) | (x >> ((64 - y) as u64))
}

fn rotl64(x: u64, y: u32) -> (r: u64)
    requires
        0 < y < 64,
    ensures
        r == rotl(x, y as u64),
{
    (x << (y as u64)) | (x >> ((64 - y) as u64))
}

/// The parity of column `x` of the state.
pub open spec fn theta_c(st: Seq<u64>, x: int) -> u64 {
    st[x] ^ st[x + 5] ^ st[x + 10] ^ st[x + 15] ^ st[x + 20]
}

/// What the step theta adds to each lane of column `x`.
pub open spec fn theta_d(st: Seq<u64>, x: int) -> u64 {
    theta_c(st, (x + 4) % 5) ^ rotl(theta_c(st, (x + 1) % 5), 1)
}

pub open spec fn theta(st: Seq<u64>) -> Seq<u64> {
    Seq::new(25, |j: int| st[j] ^ theta_d(st, j % 5))
}

pub open spec fn rho_pi(st: Seq<u64>) -> Seq<u64> {
    Seq::new(
        25,
        |j: int|
            if j == 0 {
                st[0]
            } else {
                rotl(st[KECCAKF_PISRC[j] as int], KECCAKF_RHO[j] as u64)
            },
    )
}

/// Lane `j` after the step chi, which combines it with the next two lanes of its row.
pub open spec fn chi_lane(st: Seq<u64>, j: int) -> u64 {
    st[j] ^ (!st[5 * (j / 5) + (j % 5 + 1) % 5] & st[5 * (j / 5) + (j % 5 + 2) % 5])
}

pub open spec fn chi(st: Seq<u64>) -> Seq<u64> {
    Seq::new(25, |j: int| chi_lane(st, j))
}

pub open spec fn iota(st: Seq<u64>, round: int) -> Seq<u64> {
    st.update(0, st[0] ^ KECCAKF_RNDC[round])
}

/// One round of the permutation.
pub open spec fn keccak_round(st: Seq<u64>, round: int) -> Seq<u64> {
    iota(chi(rho_pi(theta(st))), round)
}

/// The first `n` rounds of the permutation.
pub open spec fn keccak_rounds(st: Seq<u64>, n: nat) -> Seq<u64>
    decreases n,
{
    if n == 0 {
        st
    } else {
        keccak_round(keccak_rounds(st, (n - 1) as nat), n - 1)
    }
}

/// Keccak-f[1600] on a state of 25 lanes.
pub open spec fn keccakf(st: Seq<u64>) -> Seq<u64> {
    keccak_rounds(st, 24)
}

fn sha3_keccakf(st: &mut [u64; 25])
    ensures
        final(st)@ == keccakf(old(st)@),
{
    let mut r: usize = 0;
    while r < KECCAKF_ROUNDS
        invariant
            r <= KECCAKF_ROUNDS,
            st@ == keccak_rounds(old(st)@, r as nat),
        decreases KECCAKF_ROUNDS - r,
    {
        let ghost s0 = st@;
        let mut bc: [u64; 5] = [0; 5];
        let mut i: usize = 0;
        while i < 5
            invariant
                i <= 5,
                st@ == s0,
                forall|k: int| 0 <= k < i ==> bc[k] == theta_c(s0, k),
            decreases 5 - i,
        {
            bc[i] = st[i] ^ st[i + 5] ^ st[i + 10] ^ st[i + 15] ^ st[i + 20];
            i += 1;
        }
        let mut d: [u64; 5] = [0; 5];
        i = 0;
        while i < 5
            invariant
                i <= 5,
                forall|k: int| 0 <= k < 5 ==> bc[k] == theta_c(s0, k),
                forall|k: int| 0 <= k < i ==> d[k] == theta_d(s0, k),
            decreases 5 - i,
        {
            d[i] = bc[(i + 4) % 5] ^ rotl64(bc[(i + 1) % 5], 1);
            i += 1;
        }
        let mut a: [u64; 25] = [0; 25];
        let mut j: usize = 0;
        while j < 25
            invariant
                j <= 25,
                st@ == s0,
                forall|k: int| 0 <= k < 5 ==> d[k] == theta_d(s0, k),
                forall|k: int| 0 <= k < j ==> a[k] == theta(s0)[k],
            decreases 25 - j,
        {
            a[j] = st[j] ^ d[j % 5];
            j += 1;
        }
        assert(a@ =~= theta(s0));
        let mut b: [u64; 25] = [0; 25];
        b[0] = a[0];
        j = 1;
        while j < 25
            invariant
                1 <= j <= 25,
                a@ == theta(s0),
                forall|k: int| 0 <= k < j ==> b[k] == rho_pi(a@)[k],
            decreases 25 - j,
        {
            b[j] = rotl64(a[KECCAKF_PISRC[j]], KECCAKF_RHO[j]);
            j += 1;
        }
        assert(b@ =~= rho_pi(a@));
        let ghost bs = b@;
        let mut c: [u64; 25] = [0; 25];
        j = 0;
        while j < 25
            invariant
                j <= 25,
                b@ == bs,
                forall|k: int| 0 <= k < j ==> c[k] == chi_lane(bs, k),
            decreases 25 - j,
        {
            let row = 5 * (j / 5);
            let x1 = (j % 5 + 1) % 5;
            let x2 = (j % 5 + 2) % 5;
            c[j] = b[j] ^ (!b[row + x1] & b[row + x2]);
            j += 1;
        }
        assert(c@ =~= chi(bs));
        let ghost cs = c@;
        c[0] = c[0] ^ KECCAKF_RNDC[r];
        assert(c@ =~= iota(cs, r as int));
        *st = c;
        r += 1;
    }
}

/// A sponge while it absorbs: the 25 lanes and the place of the next byte.
pub struct sponge {
    pub st: Seq<u64>,
    pub pt: int,
}

/// The state with `b` xored into its byte `j`, bytes counted little-endian
/// through the lanes.
pub open spec fn xor_byte(st: Seq<u64>, j: int, b: u8) -> Seq<u64> {
    st.update(j / 8, st[j / 8] ^ ((b as u64) << ((8 * (j % 8)) as u64)))
}

/// Byte `i` of the state.
pub open spec fn state_byte(st: Seq<u64>, i: int) -> u8 {
    ((st[i / 8] >> ((8 * (i % 8)) as u64)) & 0xff) as u8
}

/// The sponge of rate `rsiz` after one more byte.
pub open spec fn absorb_byte(s: sponge, rsiz: int, b: u8) -> sponge {
    let st = xor_byte(s.st, s.pt, b);
    if s.pt + 1 >= rsiz {
        sponge { st: keccakf(st), pt: 0 }
    } else {
        sponge { st, pt: s.pt + 1 }
    }
}

/// The sponge of rate `rsiz` after the bytes of `data`.
pub open spec fn absorb(s: sponge, rsiz: int, data: Seq<u8>) -> sponge
    decreases data.len(),
{
    if data.len() == 0 {
        s
    } else {
        absorb_byte(absorb(s, rsiz, data.drop_last()), rsiz, data.last())
    }
}

/// The state after padding and the last permutation.
pub open spec fn squeezed(s: sponge, rsiz: int) -> Seq<u64> {
    keccakf(xor_byte(xor_byte(s.st, s.pt, 0x06), rsiz - 1, 0x80))
}

/// The digest of `mdlen` bytes that a sponge of rate `rsiz` gives.
pub open spec fn digest(s: sponge, rsiz: int, mdlen: int) -> Seq<u8> {
    Seq::new(mdlen as nat, |i: int| state_byte(squeezed(s, rsiz), i))
}

/// An empty sponge.
pub open spec fn empty_sponge() -> sponge {
    sponge { st: Seq::new(25, |i: int| 0u64), pt: 0 }
}

/// The rate of the sponge for a digest of `mdlen` bytes.
pub open spec fn rate(mdlen: int) -> int {
    200 - 2 * mdlen
}

/// The sponge that has absorbed the message `data`, for a digest of `mdlen` bytes.
pub open spec fn sha3_absorbed(data: Seq<u8>, mdlen: int) -> sponge {
    absorb(empty_sponge(), rate(mdlen), data)
}

/// The SHA-3 digest of `mdlen` bytes of the message `data`.
pub open spec fn sha3(data: Seq<u8>, mdlen: int) -> Seq<u8> {
    digest(sha3_absorbed(data, mdlen), rate(mdlen), mdlen)
}

/// Absorbing `a` and then `b` is absorbing `a + b`.
pub proof fn lemma_absorb_concat(s: sponge, rsiz: int, a: Seq<u8>, b: Seq<u8>)
    ensures
        absorb(s, rsiz, a + b) == absorb(absorb(s, rsiz, a), rsiz, b),
    decreases b.len(),
{
    if b.len() == 0 {
        assert(a + b =~= a);
    } else {
        lemma_absorb_concat(s, rsiz, a, b.drop_last());
        assert((a + b).drop_last() =~= a + b.drop_last());
        assert((a + b).last() == b.last());
    }
}

/// While it absorbs, a sponge keeps 25 lanes and its place below the rate.
pub proof fn lemma_absorb_wf(s: sponge, rsiz: int, data: Seq<u8>)
    requires
        s.st.len() == 25,
        0 <= s.pt < rsiz <= 200,
    ensures
        absorb(s, rsiz, data).st.len() == 25,
        0 <= absorb(s, rsiz, data).pt < rsiz,
    decreases data.len(),
{
    if data.len() > 0 {
        lemma_absorb_wf(s, rsiz, data.drop_last());
        lemma_keccakf_len(xor_byte(absorb(s, rsiz, data.drop_last()).st, absorb(s, rsiz, data.drop_last()).pt, data.last()));
    }
}

/// The permutation keeps 25 lanes.
pub proof fn lemma_keccakf_len(st: Seq<u64>)
    requires
        st.len() == 25,
    ensures
        keccakf(st).len() == 25,
{
    lemma_keccak_rounds_len(st, 24);
}

proof fn lemma_keccak_rounds_len(st: Seq<u64>, n: nat)
    requires
        st.len() == 25,
    ensures
        keccak_rounds(st, n).len() == 25,
    decreases n,
{
    if n > 0 {
        lemma_keccak_rounds_len(st, (n - 1) as nat);
    }
}

/// A SHA-3 computation in progress.
pub struct Sha3Ctx {
    pub st: [u64; 25],
    pub pt: usize,
    pub rsiz: usize,
    pub mdlen: usize,
}

impl Sha3Ctx {
    /// The rate fits the digest length and the next byte lies below the rate.
    pub open spec fn wf(&self) -> bool {
        &&& self.mdlen <= 99
        &&& self.rsiz == rate(self.mdlen as int)
        &&& self.pt < self.rsiz
    }

    /// The sponge as it stands.
    pub open spec fn state(&self) -> sponge {
        sponge { st: self.st@, pt: self.pt as int }
    }

    /// Starts a computation of a digest of `mdlen` bytes. The rate of
    /// `200 - 2 * mdlen` bytes must be positive, so `mdlen` is at most 99.
    pub fn new(mdlen: usize) -> (r: Self)
        requires
            mdlen <= 99,
        ensures
            r.wf(),
            r.mdlen == mdlen,
            r.state() == empty_sponge(),
    {
        let r = Sha3Ctx { st: [0; 25], pt: 0, rsiz: 200 - 2 * mdlen, mdlen };
        assert(r.st@ =~= empty_sponge().st);
        r
    }

    /// Absorbs `data`.
    pub fn update(&mut self, data: &[u8])
        requires
            old(self).wf(),
        ensures
            final(self).wf(),
            final(self).mdlen == old(self).mdlen,
            final(self).state() == absorb(old(self).state(), old(self).rsiz as int, data@),
    {
        let mut j = self.pt;
        let n = data.len();
        let mut i: usize = 0;
        assert(data@.take(0) =~= Seq::<u8>::empty());
        while i < n
            invariant
                i <= n,
                n == data@.len(),
                self.rsiz == old(self).rsiz,
                self.mdlen == old(self).mdlen,
                old(self).wf(),
                j < self.rsiz,
                (sponge { st: self.st@, pt: j as int }) == absorb(
                    old(self).state(),
                    old(self).rsiz as int,
                    data@.take(i as int),
                ),
            decreases n - i,
        {
            let ghost before = sponge { st: self.st@, pt: j as int };
            let lane = j / 8;
            self.st[lane] = self.st[lane] ^ ((data[i] as u64) << ((8 * (j % 8)) as u64));
            assert(self.st@ =~= xor_byte(before.st, j as int, data@[i as int]));
            j += 1;
            if j >= self.rsiz {
                sha3_keccakf(&mut self.st);
                j = 0;
            }
            proof {
                let t = data@.take(i + 1);
                assert(t.drop_last() =~= data@.take(i as int));
                assert(t.last() == data@[i as int]);
            }
            i += 1;
        }
        assert(data@.take(n as int) =~= data@);
        self.pt = j;
    }

    /// Pads, runs the last permutation, and writes the digest to the front of
    /// `md`: `mdlen` bytes of it, or as many as `md` can take.
    pub fn finalize(&mut self, md: &mut [u8])
        requires
            old(self).wf(),
        ensures
            final(self).st@ == squeezed(old(self).state(), old(self).rsiz as int),
            final(self).pt == old(self).pt,
            final(self).rsiz == old(self).rsiz,
            final(self).mdlen == old(self).mdlen,
            final(md)@.len() == old(md)@.len(),
            forall|i: int|
                0 <= i < old(md)@.len() ==> final(md)@[i] == if i < old(self).mdlen {
                    digest(old(self).state(), old(self).rsiz as int, old(self).mdlen as int)[i]
                } else {
                    old(md)@[i]
                },
    {
        let lane = self.pt / 8;
        self.st[lane] = self.st[lane] ^ (0x06u64 << ((8 * (self.pt % 8)) as u64));
        assert(self.st@ =~= xor_byte(old(self).st@, self.pt as int, 0x06));
        let ghost mid = self.st@;
        let last = self.rsiz - 1;
        let lane = last / 8;
        self.st[lane] = self.st[lane] ^ (0x80u64 << ((8 * (last % 8)) as u64));
        assert(self.st@ =~= xor_byte(mid, last as int, 0x80));
        sha3_keccakf(&mut self.st);
        let n = if md.len() < self.mdlen {
            md.len()
        } else {
            self.mdlen
        };
        let mut i: usize = 0;
        while i < n
            invariant
                i <= n,
                n <= self.mdlen <= 99,
                n <= md@.len(),
                md@.len() == old(md)@.len(),
                self.mdlen == old(self).mdlen,
                self.st@ == squeezed(old(self).state(), old(self).rsiz as int),
                forall|k: int| 0 <= k < i ==> md@[k] == state_byte(self.st@, k),
                forall|k: int| i <= k < md@.len() ==> md@[k] == old(md)@[k],
            decreases n - i,
        {
            md[i] = ((self.st[i / 8] >> ((8 * (i % 8)) as u64)) & 0xff) as u8;
            i += 1;
        }
    }
}

/// Writes to `md` the SHA-3 digest of `data` that fills it.
pub fn compute(data: &[u8], md: &mut [u8])
    requires
        old(md)@.len() <= 99,
    ensures
        final(md)@ == sha3(data@, old(md)@.len() as int),
{
    let mut ctx = Sha3Ctx::new(md.len());
    ctx.update(data);
    ctx.finalize(md);
    assert(md@ =~= sha3(data@, old(md)@.len() as int));
}

} // verus!
