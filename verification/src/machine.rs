//! The hardware the monitor acts on, as plain data: the control and status
//! registers of each hart, and physical memory as a list of banks.
use vstd::prelude::*;

verus! {

/// Number of harts the monitor keeps state for.
pub const MAX_HARTS: usize = 16;

/// Number of `pmpaddr` registers of a hart.
pub const PMP_ADDR_REGS: usize = 16;

/// Number of `pmpcfg` register names; on a 64-bit hart only the even ones exist.
pub const PMP_CFG_REGS: usize = 4;

/// The registers of one hart that the monitor reads or writes.
#[derive(Clone, Copy, PartialEq, Eq, Debug)]
pub struct hart_state {
    /// Whether the hart has been started and takes inter-processor interrupts.
    pub started: bool,
    pub mideleg: u64,
    pub mip: u64,
    pub mtvec: u64,
    pub mscratch: u64,
    pub mcause: u64,
    pub mtval: u64,
    pub sstatus: u64,
    pub sie: u64,
    pub stvec: u64,
    pub scounteren: u64,
    pub sscratch: u64,
    pub sepc: u64,
    pub scause: u64,
    pub sbadaddr: u64,
    pub sip: u64,
    pub satp: u64,
    pub pmpaddr: [u64; 16],
    pub pmpcfg: [u64; 4],
}

impl hart_state {
    /// Whether every register is zero and the hart is not started.
    pub open spec fn is_reset(&self) -> bool {
        &&& !self.started
        &&& self.mideleg == 0 && self.mip == 0 && self.mtvec == 0 && self.mscratch == 0
        &&& self.mcause == 0 && self.mtval == 0
        &&& self.sstatus == 0 && self.sie == 0 && self.stvec == 0 && self.scounteren == 0
        &&& self.sscratch == 0 && self.sepc == 0 && self.scause == 0 && self.sbadaddr == 0
        &&& self.sip == 0 && self.satp == 0
        &&& forall|i: int| 0 <= i < 16 ==> self.pmpaddr[i] == 0
        &&& forall|i: int| 0 <= i < 4 ==> self.pmpcfg[i] == 0
    }

    /// A hart out of reset: not started, every register zero.
    pub fn new() -> (r: Self)
        ensures
            r.is_reset(),
    {
        hart_state {
            started: false,
            mideleg: 0,
            mip: 0,
            mtvec: 0,
            mscratch: 0,
            mcause: 0,
            mtval: 0,
            sstatus: 0,
            sie: 0,
            stvec: 0,
            scounteren: 0,
            sscratch: 0,
            sepc: 0,
            scause: 0,
            sbadaddr: 0,
            sip: 0,
            satp: 0,
            pmpaddr: [0; 16],
            pmpcfg: [0; 4],
        }
    }
}

/// One contiguous range of physical memory and what it holds.
#[derive(Clone, PartialEq, Eq, Debug)]
pub struct mem_bank {
    pub base: u64,
    pub bytes: Vec<u8>,
}

/// Whether `bank` backs the physical address `addr`.
pub open spec fn bank_covers(bank: mem_bank, addr: int) -> bool {
    bank.base <= addr < bank.base + bank.bytes@.len()
}

/// Index of the first bank from `k` on that backs `addr`, or the number of banks.
pub open spec fn first_bank(banks: Seq<mem_bank>, addr: int, k: int) -> int
    decreases banks.len() - k,
{
    if k < 0 || k >= banks.len() {
        banks.len() as int
    } else if bank_covers(banks[k], addr) {
        k
    } else {
        first_bank(banks, addr, k + 1)
    }
}

/// Two bank lists that back the same addresses through the same banks.
pub open spec fn same_layout(a: Seq<mem_bank>, b: Seq<mem_bank>) -> bool {
    &&& a.len() == b.len()
    &&& forall|k: int|
        0 <= k < a.len() ==> (#[trigger] a[k]).base == b[k].base && a[k].bytes@.len()
            == b[k].bytes@.len()
}

pub proof fn lemma_first_bank_bounds(banks: Seq<mem_bank>, addr: int, k: int)
    requires
        0 <= k,
    ensures
        k <= first_bank(banks, addr, k) || first_bank(banks, addr, k) == banks.len(),
        first_bank(banks, addr, k) <= banks.len() || k > banks.len(),
        first_bank(banks, addr, k) < banks.len() ==> k <= first_bank(banks, addr, k)
            && bank_covers(banks[first_bank(banks, addr, k)], addr),
    decreases banks.len() - k,
{
    if k < banks.len() && !bank_covers(banks[k], addr) {
        lemma_first_bank_bounds(banks, addr, k + 1);
    }
}

pub proof fn lemma_first_bank_layout(a: Seq<mem_bank>, b: Seq<mem_bank>, addr: int, k: int)
    requires
        same_layout(a, b),
        0 <= k,
    ensures
        first_bank(a, addr, k) == first_bank(b, addr, k),
    decreases a.len() - k,
{
    if k < a.len() {
        assert(a[k].base == b[k].base);
        if !bank_covers(a[k], addr) {
            lemma_first_bank_layout(a, b, addr, k + 1);
        }
    }
}

/// Physical memory: the banks that exist. An address that no bank backs reads
/// as zero and ignores writes; where banks overlap, the first one answers.
#[derive(Clone, PartialEq, Eq, Debug)]
pub struct phys_mem {
    pub banks: Vec<mem_bank>,
}

impl phys_mem {
    /// Whether some bank backs `addr`.
    pub open spec fn backed(&self, addr: int) -> bool {
        0 <= addr <= u64::MAX && first_bank(self.banks@, addr, 0) < self.banks@.len()
    }

    /// The byte at physical address `addr`.
    pub open spec fn byte(&self, addr: int) -> u8 {
        if self.backed(addr) {
            let b = self.banks@[first_bank(self.banks@, addr, 0)];
            b.bytes@[addr - b.base]
        } else {
            0
        }
    }

    /// The 64-bit little-endian word at physical address `addr`.
    pub open spec fn word(&self, addr: int) -> u64 {
        le_word(Seq::new(8, |i: int| self.byte(addr + i)))
    }

    /// The `len` bytes from physical address `addr` on.
    pub open spec fn range(&self, addr: int, len: nat) -> Seq<u8> {
        Seq::new(len, |i: int| self.byte(addr + i))
    }

    /// Memory with no bank at all.
    pub fn new() -> (r: Self)
        ensures
            r.banks@.len() == 0,
            forall|a: int| !r.backed(a),
    {
        let r = phys_mem { banks: Vec::new() };
        assert forall|a: int| !r.backed(a) by {
            lemma_first_bank_bounds(r.banks@, a, 0);
        }
        r
    }

    /// Adds a bank of `size` zero bytes at `base`, behind the banks already there.
    pub fn add_bank(&mut self, base: u64, size: usize)
        ensures
            final(self).banks@.len() == old(self).banks@.len() + 1,
            forall|k: int| 0 <= k < old(self).banks@.len() ==> final(self).banks@[k] == old(self).banks@[k],
            final(self).banks@[old(self).banks@.len() as int].base == base,
            final(self).banks@[old(self).banks@.len() as int].bytes@ == Seq::new(
                size as nat,
                |i: int| 0u8,
            ),
    {
        let mut bytes: Vec<u8> = Vec::new();
        let mut i: usize = 0;
        while i < size
            invariant
                i <= size,
                bytes@ == Seq::new(i as nat, |j: int| 0u8),
            decreases size - i,
        {
            bytes.push(0);
            i += 1;
            assert(bytes@ =~= Seq::new(i as nat, |j: int| 0u8));
        }
        self.banks.push(mem_bank { base, bytes });
    }

    fn find_bank(&self, addr: u64) -> (r: usize)
        ensures
            r == first_bank(self.banks@, addr as int, 0),
            r <= self.banks@.len(),
            r < self.banks@.len() ==> bank_covers(self.banks@[r as int], addr as int),
    {
        let mut k: usize = 0;
        while k < self.banks.len()
            invariant
                k <= self.banks@.len(),
                first_bank(self.banks@, addr as int, 0) == first_bank(self.banks@, addr as int, k as int),
            decreases self.banks@.len() - k,
        {
            let b = &self.banks[k];
            if addr >= b.base && ((addr - b.base) as u128) < (b.bytes.len() as u128) {
                return k;
            }
            k += 1;
        }
        k
    }

    /// Reads one byte.
    pub fn read_u8(&self, addr: u64) -> (r: u8)
        ensures
            r == self.byte(addr as int),
    {
        let k = self.find_bank(addr);
        if k < self.banks.len() {
            let b = &self.banks[k];
            assert(bank_covers(self.banks@[k as int], addr as int));
            assert(0 <= addr - b.base < b.bytes.len() <= usize::MAX);
            let off = (addr - b.base) as usize;
            b.bytes[off]
        } else {
            0
        }
    }

    /// Writes one byte, if a bank backs the address.
    pub fn write_u8(&mut self, addr: u64, val: u8)
        ensures
            same_layout(old(self).banks@, final(self).banks@),
            forall|a: int| final(self).backed(a) == old(self).backed(a),
            forall|a: int|
                #[trigger] final(self).byte(a) == if a == addr && old(self).backed(a) {
                    val
                } else {
                    old(self).byte(a)
                },
    {
        let k = self.find_bank(addr);
        if k < self.banks.len() {
            assert(bank_covers(self.banks@[k as int], addr as int));
            assert(0 <= addr - self.banks@[k as int].base < self.banks@[k as int].bytes.len()
                <= usize::MAX);
            let off = (addr - self.banks[k].base) as usize;
            self.banks[k].bytes[off] = val;
            proof {
                let old_banks = old(self).banks@;
                let new_banks = self.banks@;
                assert(same_layout(old_banks, new_banks));
                assert forall|a: int|
                    #[trigger] self.byte(a) == if a == addr && old(self).backed(a) {
                        val
                    } else {
                        old(self).byte(a)
                    } by {
                    lemma_first_bank_layout(old_banks, new_banks, a, 0);
                    lemma_first_bank_bounds(old_banks, a, 0);
                }
                assert forall|a: int| self.backed(a) == old(self).backed(a) by {
                    lemma_first_bank_layout(old_banks, new_banks, a, 0);
                }
            }
        } else {
            assert(same_layout(old(self).banks@, self.banks@));
        }
    }

    /// Reads a little-endian 64-bit word.
    pub fn read_u64(&self, addr: u64) -> (r: u64)
        ensures
            r == self.word(addr as int),
    {
        let mut bytes: [u8; 8] = [0; 8];
        let mut i: usize = 0;
        while i < 8
            invariant
                i <= 8,
                forall|j: int| 0 <= j < i ==> bytes[j] == self.byte(addr + j),
            decreases 8 - i,
        {
            if addr <= u64::MAX - (i as u64) {
                bytes[i] = self.read_u8(addr + i as u64);
            } else {
                bytes[i] = 0;
            }
            i += 1;
        }
        assert(bytes@ =~= Seq::new(8, |i: int| self.byte(addr + i)));
        word_from_le(&bytes)
    }

    /// Writes a little-endian 64-bit word, byte by byte.
    pub fn write_u64(&mut self, addr: u64, val: u64)
        ensures
            same_layout(old(self).banks@, final(self).banks@),
            forall|a: int| final(self).backed(a) == old(self).backed(a),
            forall|a: int|
                #[trigger] final(self).byte(a) == if addr <= a < addr + 8 && old(self).backed(a) {
                    le_bytes(val)[a - addr]
                } else {
                    old(self).byte(a)
                },
    {
        let bytes = word_to_le(val);
        let mut i: usize = 0;
        while i < 8
            invariant
                i <= 8,
                bytes@ == le_bytes(val),
                same_layout(old(self).banks@, self.banks@),
                forall|a: int| self.backed(a) == old(self).backed(a),
                forall|a: int|
                    #[trigger] self.byte(a) == if addr <= a < addr + i && old(self).backed(a) {
                        le_bytes(val)[a - addr]
                    } else {
                        old(self).byte(a)
                    },
            decreases 8 - i,
        {
            if addr <= u64::MAX - (i as u64) {
                self.write_u8(addr + i as u64, bytes[i]);
            }
            i += 1;
        }
    }

    /// Reads `len` bytes from `addr` on.
    pub fn read_range(&self, addr: u64, len: usize) -> (r: Vec<u8>)
        ensures
            r@ == self.range(addr as int, len as nat),
    {
        let mut out: Vec<u8> = Vec::new();
        let mut i: usize = 0;
        while i < len
            invariant
                i <= len,
                out@ == self.range(addr as int, i as nat),
            decreases len - i,
        {
            let b = if (i as u128) <= (u64::MAX - addr) as u128 {
                self.read_u8(addr + i as u64)
            } else {
                0
            };
            out.push(b);
            i += 1;
            assert(out@ =~= self.range(addr as int, i as nat));
        }
        out
    }
}

/// The word whose little-endian bytes are `b`.
pub open spec fn le_word(b: Seq<u8>) -> u64
    recommends
        b.len() == 8,
{
    (b[0] as u64) | ((b[1] as u64) << 8) | ((b[2] as u64) << 16) | ((b[3] as u64) << 24) | ((
    b[4] as u64) << 32) | ((b[5] as u64) << 40) | ((b[6] as u64) << 48) | ((b[7] as u64) << 56)
}

/// The eight little-endian bytes of `w`.
pub open spec fn le_bytes(w: u64) -> Seq<u8> {
    seq![
        (w & 0xff) as u8,
        ((w >> 8) & 0xff) as u8,
        ((w >> 16) & 0xff) as u8,
        ((w >> 24) & 0xff) as u8,
        ((w >> 32) & 0xff) as u8,
        ((w >> 40) & 0xff) as u8,
        ((w >> 48) & 0xff) as u8,
        ((w >> 56) & 0xff) as u8,
    ]
}

/// Assembles a word from its little-endian bytes.
pub fn word_from_le(b: &[u8; 8]) -> (r: u64)
    ensures
        r == le_word(b@),
{
    (b[0] as u64) | ((b[1] as u64) << 8) | ((b[2] as u64) << 16) | ((b[3] as u64) << 24) | ((
    b[4] as u64) << 32) | ((b[5] as u64) << 40) | ((b[6] as u64) << 48) | ((b[7] as u64) << 56)
}

/// Splits a word into its little-endian bytes.
pub fn word_to_le(w: u64) -> (r: [u8; 8])
    ensures
        r@ == le_bytes(w),
{
    let r = [
        (w & 0xff) as u8,
        ((w >> 8) & 0xff) as u8,
        ((w >> 16) & 0xff) as u8,
        ((w >> 24) & 0xff) as u8,
        ((w >> 32) & 0xff) as u8,
        ((w >> 40) & 0xff) as u8,
        ((w >> 48) & 0xff) as u8,
        ((w >> 56) & 0xff) as u8,
    ];
    assert(r@ =~= le_bytes(w));
    r
}

/// The harts and the memory that the monitor runs on.
#[derive(Clone, PartialEq, Eq, Debug)]
pub struct machine {
    pub harts: [hart_state; 16],
    /// The hart that executes the monitor's code.
    pub hartid: usize,
    pub mem: phys_mem,
    /// Address of the host's trap handler.
    pub host_trap_vector: u64,
    /// Address of the trap handler used while an enclave runs.
    pub enclave_trap_vector: u64,
}

impl machine {
    /// The executing hart is one of the harts.
    pub open spec fn wf(&self) -> bool {
        self.hartid < MAX_HARTS
    }

    /// A machine out of reset with hart 0 executing and no memory.
    pub fn new() -> (r: Self)
        ensures
            r.wf(),
            r.hartid == 0,
            r.mem.banks@.len() == 0,
            r.host_trap_vector == 0,
            r.enclave_trap_vector == 0,
            forall|h: int| 0 <= h < 16 ==> (#[trigger] r.harts[h]).is_reset(),
    {
        let h = hart_state::new();
        machine {
            harts: [h; 16],
            hartid: 0,
            mem: phys_mem::new(),
            host_trap_vector: 0,
            enclave_trap_vector: 0,
        }
    }

    /// Whether the machine can serve as hart `self.hartid`; for callers that
    /// cannot state `wf` themselves.
    pub fn is_wf(&self) -> (r: bool)
        ensures
            r == self.wf(),
    {
        self.hartid < MAX_HARTS
    }
}

} // verus!
