//! The firmware layer under the monitor: register encodings, the ticket lock,
//! hart masks, and access to the registers and memory of the machine model.
use vstd::prelude::*;
use crate::machine::{hart_state, machine, phys_mem, same_layout};

verus! {

pub const SATP_MODE_OFF: u64 = 0;
pub const SATP_MODE_SV32: u64 = 1;
pub const SATP_MODE_SV39: u64 = 8;
pub const SATP_MODE_SV48: u64 = 9;
pub const SATP_MODE_SV57: u64 = 10;
pub const SATP_MODE_SV64: u64 = 11;

pub const HGATP_MODE_OFF: u64 = 0;
pub const HGATP_MODE_SV32X4: u64 = 1;
pub const HGATP_MODE_SV39X4: u64 = 8;
pub const HGATP_MODE_SV48X4: u64 = 9;

pub const PAGE_SHIFT: u64 = 12;
pub const PAGE_SIZE: u64 = 4096;

pub const PMP_R: u8 = 0x01;
pub const PMP_W: u8 = 0x02;
pub const PMP_X: u8 = 0x04;
pub const PMP_A: u8 = 0x18;
pub const PMP_A_TOR: u8 = 0x08;
pub const PMP_A_NA4: u8 = 0x10;
pub const PMP_A_NAPOT: u8 = 0x18;
pub const PMP_L: u8 = 0x80;

pub const IRQ_S_SOFT: u64 = 1;
pub const IRQ_VS_SOFT: u64 = 2;
pub const IRQ_M_SOFT: u64 = 3;
pub const IRQ_S_TIMER: u64 = 5;
pub const IRQ_VS_TIMER: u64 = 6;
pub const IRQ_M_TIMER: u64 = 7;
pub const IRQ_S_EXT: u64 = 9;
pub const IRQ_VS_EXT: u64 = 10;
pub const IRQ_M_EXT: u64 = 11;
pub const IRQ_S_GEXT: u64 = 12;
pub const IRQ_PMU_OVF: u64 = 13;

pub const MIP_SSIP: u64 = 0x0002;
pub const MIP_VSSIP: u64 = 0x0004;
pub const MIP_MSIP: u64 = 0x0008;
pub const MIP_STIP: u64 = 0x0020;
pub const MIP_VSTIP: u64 = 0x0040;
pub const MIP_MTIP: u64 = 0x0080;
pub const MIP_SEIP: u64 = 0x0200;
pub const MIP_VSEIP: u64 = 0x0400;
pub const MIP_MEIP: u64 = 0x0800;
pub const MIP_SGEIP: u64 = 0x1000;
pub const MIP_LCOFIP: u64 = 0x2000;

pub const MSTATUS_SIE: u64 = 0x00000002;
pub const MSTATUS_MIE: u64 = 0x00000008;
pub const MSTATUS_SPIE_SHIFT: u64 = 5;
pub const MSTATUS_SPIE: u64 = 0x00000020;
pub const MSTATUS_UBE: u64 = 0x00000040;
pub const MSTATUS_MPIE: u64 = 0x00000080;
pub const MSTATUS_SPP_SHIFT: u64 = 8;
pub const MSTATUS_SPP: u64 = 0x00000100;
pub const MSTATUS_MPP_SHIFT: u64 = 11;
pub const MSTATUS_MPP: u64 = 0x00001800;
pub const MSTATUS_FS: u64 = 0x00006000;
pub const MSTATUS_XS: u64 = 0x00018000;
pub const MSTATUS_VS: u64 = 0x01800000;
pub const MSTATUS_MPRV: u64 = 0x00020000;
pub const MSTATUS_SUM: u64 = 0x00040000;
pub const MSTATUS_MXR: u64 = 0x00080000;
pub const MSTATUS_TVM: u64 = 0x00100000;
pub const MSTATUS_TW: u64 = 0x00200000;
pub const MSTATUS_TSR: u64 = 0x00400000;
pub const MSTATUS32_SD: u64 = 0x80000000;
pub const MSTATUS64_SD: u64 = 0x8000000000000000;
pub const SSTATUS64_SD: u64 = MSTATUS64_SD;
pub const SATP64_MODE: u64 = 0xF000000000000000;
pub const HGATP64_PPN: u64 = 0x00000FFFFFFFFFFF;
pub const HGATP64_VMID_SHIFT: u64 = 44;
pub const HGATP64_VMID_MASK: u64 = 0x03FFF00000000000;
pub const HGATP64_MODE_SHIFT: u64 = 60;
pub const MSTATUS_SD: u64 = MSTATUS64_SD;
pub const SSTATUS_SD: u64 = SSTATUS64_SD;
pub const SATP_MODE: u64 = SATP64_MODE;
pub const HGATP_PPN: u64 = HGATP64_PPN;
pub const HGATP_VMID_SHIFT: u64 = HGATP64_VMID_SHIFT;
pub const HGATP_VMID_MASK: u64 = HGATP64_VMID_MASK;
pub const HGATP_MODE_SHIFT: u64 = HGATP64_MODE_SHIFT;
pub const BITS_PER_LONG: usize = 64;

pub const CAUSE_MISALIGNED_FETCH: u64 = 0x0;
pub const CAUSE_ILLEGAL_INSTRUCTION: u64 = 0x2;
pub const CAUSE_MISALIGNED_LOAD: u64 = 0x4;
pub const CAUSE_MISALIGNED_STORE: u64 = 0x6;
pub const CAUSE_SUPERVISOR_ECALL: u64 = 0x9;
pub const CAUSE_MACHINE_ECALL: u64 = 0xb;

pub const SBI_ERR_INVALID_PARAM: i32 = -3;
pub const SBI_ENOTSUPP: i32 = -2;

pub const TICKET_SHIFT: u64 = 16;

/// Maximum number of bits in a hart mask.
pub const SBI_HARTMASK_MAX_BITS: usize = 128;

/// A ticket lock: `next` is the ticket handed to the next comer, `owner` the
/// ticket being served.
#[derive(Clone, Copy, PartialEq, Eq, Structural, Debug)]
pub struct spinlock_t {
    pub owner: u16,
    pub next: u16,
}

/// `t + 1` as a ticket number.
pub open spec fn next_ticket(t: u16) -> u16 {
    if t == u16::MAX {
        0
    } else {
        (t + 1) as u16
    }
}

impl spinlock_t {
    /// Whether some ticket is being served, that is, the lock is taken.
    pub open spec fn held(&self) -> bool {
        self.owner != self.next
    }

    /// A free lock.
    pub fn new() -> (r: Self)
        ensures
            r.owner == 0,
            r.next == 0,
            !r.held(),
    {
        spinlock_t { owner: 0, next: 0 }
    }
}

/// Takes the next ticket of a free lock, which is served at once. A taken
/// lock would keep the caller spinning, so the lock must be free.
pub fn spin_lock(lock: &mut spinlock_t)
    requires
        !old(lock).held(),
    ensures
        final(lock).owner == old(lock).owner,
        final(lock).next == next_ticket(old(lock).next),
        final(lock).held(),
{
    lock.next = lock.next.wrapping_add(1);
}

/// Stores `v` to `p`; on hardware a release fence comes first.
pub fn __smp_store_release(p: &mut u16, v: u16)
    ensures
        *final(p) == v,
{
    *p = v;
}

/// Serves the next ticket.
pub fn spin_unlock(lock: &mut spinlock_t)
    ensures
        final(lock).next == old(lock).next,
        final(lock).owner == next_ticket(old(lock).owner),
        old(lock).next == next_ticket(old(lock).owner) ==> !final(lock).held(),
{
    let served = lock.owner.wrapping_add(1);
    __smp_store_release(&mut lock.owner, served);
}

pub fn __SPIN_LOCK_UNLOCKED() -> (r: spinlock_t)
    ensures
        r == (spinlock_t { owner: 0, next: 0 }),
{
    spinlock_t::new()
}

/// Resets `x` to a free lock.
pub fn SPIN_LOCK_INIT(x: &mut spinlock_t)
    ensures
        *final(x) == (spinlock_t { owner: 0, next: 0 }),
{
    *x = __SPIN_LOCK_UNLOCKED();
}

pub fn SPIN_LOCK_INITIALIZER() -> (r: spinlock_t)
    ensures
        r == (spinlock_t { owner: 0, next: 0 }),
{
    __SPIN_LOCK_UNLOCKED()
}

/// Number of 64-bit words that hold `nbits` bits.
pub open spec fn bits_to_longs(nbits: int) -> int {
    (nbits + 63) / 64
}

pub fn BITS_TO_LONGS(nbits: usize) -> (r: usize)
    requires
        nbits <= usize::MAX - 63,
    ensures
        r == bits_to_longs(nbits as int),
{
    (nbits + (BITS_PER_LONG - 1)) / BITS_PER_LONG
}

/// Whether bit `k` of `x` is set.
pub open spec fn bit64(x: u64, k: u64) -> bool {
    (x >> k) & 1 == 1
}

pub proof fn lemma_bit64_or(x: u64, j: u64, k: u64)
    by (bit_vector)
    requires
        j < 64,
        k < 64,
    ensures
        bit64(x | (1u64 << j), k) == (k == j || bit64(x, k)),
        bit64(1u64 << j, k) == (k == j),
        !bit64(0, k),
{
}

/// A set of harts, one bit each.
#[derive(Clone, Copy, PartialEq, Eq, Debug)]
pub struct sbi_hartmask {
    pub bits: [u64; 2],
}

impl sbi_hartmask {
    /// Whether hart `h` is in the mask.
    pub open spec fn has(&self, h: int) -> bool {
        0 <= h < 128 && bit64(self.bits[h / 64], (h % 64) as u64)
    }
}

#[derive(Clone, Copy, PartialEq, Eq, Structural, Debug)]
pub struct atomic_t {
    pub counter: u64,
}

/// A request sent to other harts. For a protection update `start` holds the
/// kind of update, `asid` the region and `vmid` the permissions.
#[derive(Clone, Copy, PartialEq, Eq, Debug)]
pub struct sbi_tlb_info {
    pub start: u64,
    pub size: u64,
    pub asid: u64,
    pub vmid: u64,
    pub smask: sbi_hartmask,
}

/// How many words of a bitmap of `nbits` bits `bitmap_zero_except` clears.
pub open spec fn cleared_words(nbits: int) -> int {
    if nbits < 64 {
        1
    } else {
        bits_to_longs(nbits)
    }
}

/// Clears the words that hold the first `nbits` bits of `dst` and then sets bit
/// `exception`, if it is one of those bits.
pub fn bitmap_zero_except(dst: &mut [u64; 2], exception: usize, nbits: usize)
    requires
        nbits <= 128,
    ensures
        forall|i: int|
            0 <= i < 2 ==> #[trigger] final(dst)[i] == if i < cleared_words(nbits as int) {
                if exception < nbits && exception / 64 == i {
                    1u64 << ((exception % 64) as u64)
                } else {
                    0
                }
            } else {
                old(dst)[i]
            },
{
    if nbits < BITS_PER_LONG {
        dst[0] = 0;
    } else {
        let len = BITS_TO_LONGS(nbits);
        let mut i: usize = 0;
        while i < len
            invariant
                i <= len <= 2,
                forall|j: int| 0 <= j < i ==> dst[j] == 0,
                forall|j: int| i <= j < 2 ==> dst[j] == old(dst)[j],
            decreases len - i,
        {
            dst[i] = 0;
            i += 1;
        }
    }
    if exception < nbits {
        let val: u64 = 1u64 << ((exception % BITS_PER_LONG) as u64);
        let w = exception / BITS_PER_LONG;
        assert(dst[w as int] == 0);
        assert(0u64 | val == val) by (bit_vector);
        dst[w] = dst[w] | val;
    }
}

/// Makes `m` the mask that holds hart `h` alone, or no hart if `h` is out of range.
pub fn SBI_HARTMASK_INIT_EXCEPT(m: &mut sbi_hartmask, h: usize)
    ensures
        forall|k: int| 0 <= k < 128 ==> (#[trigger] final(m).has(k) <==> k == h),
{
    bitmap_zero_except(&mut m.bits, h, SBI_HARTMASK_MAX_BITS);
    proof {
        assert forall|k: int| 0 <= k < 128 implies (#[trigger] m.has(k) <==> k == h) by {
            let w = k / 64;
            let b = (k % 64) as u64;
            if h < 128 && h / 64 == w {
                lemma_bit64_or(0, (h % 64) as u64, b);
            } else {
                lemma_bit64_or(0, 0, b);
            }
        }
    }
}

/// The registers of a hart that are read and written by name.
#[derive(Clone, Copy, PartialEq, Eq, Structural, Debug)]
pub enum csr {
    mideleg,
    mip,
    mtvec,
    mscratch,
    mcause,
    mtval,
    sstatus,
    sie,
    stvec,
    scounteren,
    sscratch,
    sepc,
    scause,
    sbadaddr,
    sip,
    satp,
}

impl hart_state {
    /// The value of register `id`.
    pub open spec fn csr(&self, id: csr) -> u64 {
        match id {
            csr::mideleg => self.mideleg,
            csr::mip => self.mip,
            csr::mtvec => self.mtvec,
            csr::mscratch => self.mscratch,
            csr::mcause => self.mcause,
            csr::mtval => self.mtval,
            csr::sstatus => self.sstatus,
            csr::sie => self.sie,
            csr::stvec => self.stvec,
            csr::scounteren => self.scounteren,
            csr::sscratch => self.sscratch,
            csr::sepc => self.sepc,
            csr::scause => self.scause,
            csr::sbadaddr => self.sbadaddr,
            csr::sip => self.sip,
            csr::satp => self.satp,
        }
    }

    /// The hart with register `id` set to `val` and nothing else changed.
    pub open spec fn with_csr(&self, id: csr, val: u64) -> hart_state {
        match id {
            csr::mideleg => hart_state { mideleg: val, ..*self },
            csr::mip => hart_state { mip: val, ..*self },
            csr::mtvec => hart_state { mtvec: val, ..*self },
            csr::mscratch => hart_state { mscratch: val, ..*self },
            csr::mcause => hart_state { mcause: val, ..*self },
            csr::mtval => hart_state { mtval: val, ..*self },
            csr::sstatus => hart_state { sstatus: val, ..*self },
            csr::sie => hart_state { sie: val, ..*self },
            csr::stvec => hart_state { stvec: val, ..*self },
            csr::scounteren => hart_state { scounteren: val, ..*self },
            csr::sscratch => hart_state { sscratch: val, ..*self },
            csr::sepc => hart_state { sepc: val, ..*self },
            csr::scause => hart_state { scause: val, ..*self },
            csr::sbadaddr => hart_state { sbadaddr: val, ..*self },
            csr::sip => hart_state { sip: val, ..*self },
            csr::satp => hart_state { satp: val, ..*self },
        }
    }
}

/// Reads register `id` of `hart`.
pub fn csr_read(hart: &hart_state, id: csr) -> (r: u64)
    ensures
        r == hart.csr(id),
{
    match id {
        csr::mideleg => hart.mideleg,
        csr::mip => hart.mip,
        csr::mtvec => hart.mtvec,
        csr::mscratch => hart.mscratch,
        csr::mcause => hart.mcause,
        csr::mtval => hart.mtval,
        csr::sstatus => hart.sstatus,
        csr::sie => hart.sie,
        csr::stvec => hart.stvec,
        csr::scounteren => hart.scounteren,
        csr::sscratch => hart.sscratch,
        csr::sepc => hart.sepc,
        csr::scause => hart.scause,
        csr::sbadaddr => hart.sbadaddr,
        csr::sip => hart.sip,
        csr::satp => hart.satp,
    }
}

/// Writes `val` to register `id` of `hart`.
pub fn csr_write(hart: &mut hart_state, id: csr, val: u64)
    ensures
        *final(hart) == old(hart).with_csr(id, val),
{
    match id {
        csr::mideleg => { hart.mideleg = val; },
        csr::mip => { hart.mip = val; },
        csr::mtvec => { hart.mtvec = val; },
        csr::mscratch => { hart.mscratch = val; },
        csr::mcause => { hart.mcause = val; },
        csr::mtval => { hart.mtval = val; },
        csr::sstatus => { hart.sstatus = val; },
        csr::sie => { hart.sie = val; },
        csr::stvec => { hart.stvec = val; },
        csr::scounteren => { hart.scounteren = val; },
        csr::sscratch => { hart.sscratch = val; },
        csr::sepc => { hart.sepc = val; },
        csr::scause => { hart.scause = val; },
        csr::sbadaddr => { hart.sbadaddr = val; },
        csr::sip => { hart.sip = val; },
        csr::satp => { hart.satp = val; },
    }
}

/// Clears in register `id` the bits that are set in `val`.
pub fn csr_clear(hart: &mut hart_state, id: csr, val: u64)
    ensures
        *final(hart) == old(hart).with_csr(id, old(hart).csr(id) & !val),
{
    let v = csr_read(hart, id);
    csr_write(hart, id, v & !val);
}

/// Sets in register `id` the bits that are set in `val`.
pub fn csr_set(hart: &mut hart_state, id: csr, val: u64)
    ensures
        *final(hart) == old(hart).with_csr(id, old(hart).csr(id) | val),
{
    let v = csr_read(hart, id);
    csr_write(hart, id, v | val);
}

/// The id of the executing hart.
pub fn current_hartid(m: &machine) -> (r: usize)
    ensures
        r == m.hartid,
{
    m.hartid
}

/// Fills `count` bytes of memory from `s` on with `c`, stopping at the top of the
/// address space, and returns `s`.
pub fn sbi_memset(mem: &mut phys_mem, s: u64, c: u8, count: u64) -> (r: u64)
    ensures
        r == s,
        same_layout(old(mem).banks@, final(mem).banks@),
        forall|a: int| final(mem).backed(a) == old(mem).backed(a),
        forall|a: int|
            #[trigger] final(mem).byte(a) == if s <= a < s + count && old(mem).backed(a) {
                c
            } else {
                old(mem).byte(a)
            },
{
    let mut k: u64 = 0;
    while k < count && s <= u64::MAX - k
        invariant
            k <= count,
            same_layout(old(mem).banks@, mem.banks@),
            forall|a: int| mem.backed(a) == old(mem).backed(a),
            forall|a: int|
                #[trigger] mem.byte(a) == if s <= a < s + k && old(mem).backed(a) {
                    c
                } else {
                    old(mem).byte(a)
                },
        decreases count - k,
    {
        mem.write_u8(s + k, c);
        k += 1;
    }
    s
}

/// The byte at `a` after `n` bytes have been copied, lowest address first, from
/// `src` on to `dest` on in memory that started as `mem`.
pub open spec fn memcpy_byte(mem: phys_mem, dest: int, src: int, n: nat, a: int) -> u8
    decreases n,
{
    if n == 0 {
        mem.byte(a)
    } else if a == dest + n - 1 && mem.backed(a) {
        memcpy_byte(mem, dest, src, (n - 1) as nat, src + n - 1)
    } else {
        memcpy_byte(mem, dest, src, (n - 1) as nat, a)
    }
}

/// An address that no bank backs holds zero whatever is copied.
pub proof fn lemma_memcpy_unbacked(mem: phys_mem, dest: int, src: int, n: nat, a: int)
    requires
        !mem.backed(a),
    ensures
        memcpy_byte(mem, dest, src, n, a) == 0,
    decreases n,
{
    if n > 0 {
        lemma_memcpy_unbacked(mem, dest, src, (n - 1) as nat, a);
    }
}

/// Copies `count` bytes from `src` on to `dest` on, lowest address first, and
/// returns `dest`. Addresses past the top of the address space read as zero
/// and are not written.
pub fn sbi_memcpy(mem: &mut phys_mem, dest: u64, src: u64, count: u64) -> (r: u64)
    ensures
        r == dest,
        same_layout(old(mem).banks@, final(mem).banks@),
        forall|a: int| final(mem).backed(a) == old(mem).backed(a),
        forall|a: int|
            #[trigger] final(mem).byte(a) == memcpy_byte(
                *old(mem),
                dest as int,
                src as int,
                count as nat,
                a,
            ),
{
    let mut k: u64 = 0;
    while k < count
        invariant
            k <= count,
            same_layout(old(mem).banks@, mem.banks@),
            forall|a: int| mem.backed(a) == old(mem).backed(a),
            forall|a: int|
                #[trigger] mem.byte(a) == memcpy_byte(
                    *old(mem),
                    dest as int,
                    src as int,
                    k as nat,
                    a,
                ),
        decreases count - k,
    {
        let v = if src <= u64::MAX - k {
            mem.read_u8(src + k)
        } else {
            0
        };
        let ghost before = *mem;
        if dest <= u64::MAX - k {
            mem.write_u8(dest + k, v);
        }
        proof {
            if src + k > u64::MAX {
                lemma_memcpy_unbacked(*old(mem), dest as int, src as int, k as nat, src + k);
            } else {
                assert(v == before.byte(src + k));
            }
            assert(v == memcpy_byte(*old(mem), dest as int, src as int, k as nat, src + k));
            assert forall|a: int|
                #[trigger] mem.byte(a) == memcpy_byte(
                    *old(mem),
                    dest as int,
                    src as int,
                    (k + 1) as nat,
                    a,
                ) by {
                assert(before.byte(a) == memcpy_byte(
                    *old(mem),
                    dest as int,
                    src as int,
                    k as nat,
                    a,
                ));
            }
        }
        k += 1;
    }
    dest
}

/// Number of harts of the platform.
pub fn sbi_platform_hart_count() -> (r: usize)
    ensures
        r == 8,
{
    8
}

/// Puts into `out_hmask` one bit for each started hart from `hbase` on: bit `k`
/// stands for hart `hbase + k`. Fails, with an empty mask, when the platform
/// has no hart `hbase`.
pub fn sbi_hsm_hart_started_mask(m: &machine, hbase: usize, out_hmask: &mut u64) -> (r: i32)
    ensures
        r == if hbase >= 8 { SBI_ERR_INVALID_PARAM } else { 0 },
        forall|k: u64|
            k < 64 ==> (#[trigger] bit64(*final(out_hmask), k) <==> hbase + k < 8
                && m.harts[hbase + k].started),
{
    let mut hcount: usize = sbi_platform_hart_count();
    *out_hmask = 0;
    if hcount <= hbase {
        assert forall|k: u64| k < 64 implies !#[trigger] bit64(*out_hmask, k) by {
            lemma_bit64_or(0, 0, k);
        }
        return SBI_ERR_INVALID_PARAM;
    }
    if BITS_PER_LONG < hcount - hbase {
        hcount = BITS_PER_LONG;
    }
    let mut i: usize = hbase;
    assert forall|k: u64| k < 64 implies !#[trigger] bit64(*out_hmask, k) by {
        lemma_bit64_or(0, 0, k);
    }
    while i < hcount
        invariant
            hbase <= i <= hcount == 8,
            forall|k: u64|
                k < 64 ==> (#[trigger] bit64(*out_hmask, k) <==> hbase + k < i
                    && m.harts[hbase + k].started),
        decreases hcount - i,
    {
        if m.harts[i].started {
            let ghost before = *out_hmask;
            *out_hmask = *out_hmask | (1u64 << ((i - hbase) as u64));
            assert forall|k: u64|
                k < 64 implies (#[trigger] bit64(*out_hmask, k) <==> hbase + k < i + 1
                && m.harts[hbase + k].started) by {
                lemma_bit64_or(before, (i - hbase) as u64, k);
            }
        }
        i += 1;
    }
    0
}

} // verus!
