//! The region allocator: logical protection regions over the few
//! physical-memory-protection registers of a hart.
use vstd::prelude::*;
use crate::error_code::{
    SBI_ERR_SM_PMP_REGION_IMPOSSIBLE_TOR,
    SBI_ERR_SM_PMP_REGION_INVALID,
    SBI_ERR_SM_PMP_REGION_MAX_REACHED,
    SBI_ERR_SM_PMP_REGION_NOT_PAGE_GRANULARITY,
    SBI_ERR_SM_PMP_REGION_OVERLAP,
    SBI_ERR_SM_PMP_REGION_SIZE_INVALID,
    SBI_ERR_SM_PMP_SUCCESS,
};
use crate::ipi::{
    broadcast_result,
    lemma_broadcast_invalid,
    SBI_PMP_IPI_TYPE_SET,
    SBI_PMP_IPI_TYPE_UNSET,
    send_and_sync_pmp_ipi,
};
use crate::machine::{hart_state, machine};
use crate::opensbi::{PMP_A_NAPOT, PMP_A_TOR};
use crate::page::RISCV_PGSIZE;

verus! {

pub type region_id = i32;

pub type pmpreg_id = i32;

/// Which register a new region asks for.
#[derive(Clone, Copy, PartialEq, Eq, Structural, Debug)]
pub enum pmp_priority {
    /// The first free register.
    PMP_PRI_ANY,
    /// Register 0, which the hardware consults first.
    PMP_PRI_TOP,
    /// The last register, which several regions may share.
    PMP_PRI_BOTTOM,
}

/// One logical region.
#[derive(Clone, Copy, PartialEq, Eq, Structural, Debug)]
pub struct pmp_region {
    pub size: u64,
    pub addrmode: u8,
    pub addr: u64,
    pub allow_overlap: i32,
    /// The register that holds the region's entry. A two-register region also
    /// has the register below it.
    pub reg_idx: i32,
}

impl pmp_region {
    /// An unused slot.
    pub fn new() -> (r: Self)
        ensures
            r == (pmp_region { size: 0, addrmode: 0, addr: 0, allow_overlap: 0, reg_idx: 0 }),
    {
        pmp_region { size: 0, addrmode: 0, addr: 0, allow_overlap: 0, reg_idx: 0 }
    }

    /// Whether the region's range `[addr, addr + size)` meets `[start, start + len)`.
    pub open spec fn meets(&self, start: int, len: int) -> bool {
        self.addr < start + len && self.addr + self.size > start
    }

    /// Whether the region's range holds the address `a`.
    pub open spec fn contains(&self, a: int) -> bool {
        self.addr <= a < self.addr + self.size
    }

    /// Whether the region is encoded as a top-of-range entry.
    pub open spec fn is_tor(&self) -> bool {
        self.addrmode == PMP_A_TOR
    }

    /// Whether the region is encoded as a naturally aligned power of two.
    pub open spec fn is_napot(&self) -> bool {
        self.addrmode == PMP_A_NAPOT
    }

    /// Whether the region takes the register below `reg_idx` too.
    pub open spec fn needs_two_entries(&self) -> bool {
        self.is_tor() && self.reg_idx > 0
    }

    /// What a valid slot always satisfies.
    pub open spec fn wf(&self) -> bool {
        &&& self.size > 0
        &&& 0 <= self.reg_idx < PMP_N_REG
        &&& self.is_napot() || self.is_tor()
        &&& self.allow_overlap == 0 ==> self.addr + self.size <= u64::MAX
        &&& self.size == u64::MAX || self.size % RISCV_PGSIZE == 0
        &&& self.addr % RISCV_PGSIZE == 0
        &&& self.is_napot() ==> napot_range(self.addr, self.size)
        &&& self.is_tor() && self.reg_idx == 0 ==> self.addr == 0
    }

    /// The value of the address register of the region's entry.
    pub open spec fn pmpaddr_val(&self) -> u64 {
        if self.addr == 0 && self.size == u64::MAX {
            u64::MAX
        } else if self.is_napot() {
            (self.addr | ((self.size / 2 - 1) as u64)) >> 2
        } else if self.is_tor() {
            (((self.addr + self.size) % 0x1_0000_0000_0000_0000) as u64) >> 2
        } else {
            0
        }
    }
}

/// A cleared slot.
pub open spec fn empty_region() -> pmp_region {
    pmp_region { size: 0, addrmode: 0, addr: 0, allow_overlap: 0, reg_idx: 0 }
}

/// Whether `[start, start + size)` can be encoded as one naturally aligned
/// power-of-two entry: `size` has a single bit set and `start` is a multiple
/// of it, or the range is the whole address space.
pub open spec fn napot_range(start: u64, size: u64) -> bool {
    (size == u64::MAX && start == 0) || (size != 0 && size & ((size - 1) as u64) == 0 && start & ((size
        - 1) as u64) == 0)
}

/// Number of protection registers that the allocator hands out.
pub const PMP_N_REG: usize = 8;

/// Maximum number of regions.
pub const PMP_MAX_N_REGION: usize = 16;

pub const PMP_ALL_PERM: u8 = 0x07;

pub const PMP_NO_PERM: u8 = 0;

/// Number of entries that one `pmpcfg` register configures.
pub const PMP_PER_GROUP: usize = 8;

/// Whether bit `n` of `bitmap` is set.
pub open spec fn bit32(bitmap: u32, n: int) -> bool {
    0 <= n < 32 && (bitmap >> (n as u32)) & 1 == 1
}

/// `bitmap` with bit `n` set.
pub open spec fn with_bit(bitmap: u32, n: int) -> u32 {
    bitmap | (1u32 << (n as u32))
}

/// `bitmap` with bit `n` cleared.
pub open spec fn without_bit(bitmap: u32, n: int) -> u32 {
    bitmap & !(1u32 << (n as u32))
}

proof fn lemma_bit32_ops(x: u32, n: u32, k: u32)
    by (bit_vector)
    requires
        n < 32,
        k < 32,
    ensures
        ((x | (1u32 << n)) >> k) & 1 == 1 <==> (k == n || (x >> k) & 1 == 1),
        ((x & !(1u32 << n)) >> k) & 1 == 1 <==> (k != n && (x >> k) & 1 == 1),
        (x & (1u32 << n)) != 0 <==> (x >> n) & 1 == 1,
        (!x & (1u32 << n)) == (1u32 << n) <==> (x >> n) & 1 != 1,
{
}

/// Setting or clearing bit `n` changes bit `n` and no other.
pub proof fn lemma_bit32_update(x: u32, n: int, k: int)
    requires
        0 <= n < 32,
    ensures
        bit32(with_bit(x, n), k) == (k == n || bit32(x, k)),
        bit32(without_bit(x, n), k) == (k != n && bit32(x, k)),
{
    if 0 <= k < 32 {
        lemma_bit32_ops(x, n as u32, k as u32);
    }
}

proof fn lemma_mask_pair(x: u32, i: u32, max: u32)
    by (bit_vector)
    requires
        i < 32,
        max < 32,
    ensures
        (3u32 << i) < (1u32 << max) <==> i + 1 < max,
        (1u32 << i) < (1u32 << max) <==> i < max,
        i < 31 ==> (1u32 << i) << 1 == (1u32 << ((i + 1) as u32)),
        i < 31 ==> (3u32 << i) << 1 == (3u32 << ((i + 1) as u32)),
        i < 31 ==> ((!x & (3u32 << i)) == (3u32 << i) <==> ((x >> i) & 1 != 1 && (x >> ((i
            + 1) as u32)) & 1 != 1)),
        (!x & (1u32 << i)) == (1u32 << i) <==> (x >> i) & 1 != 1,
{
}

fn set_bit(bitmap: &mut u32, n: usize)
    requires
        n < 32,
    ensures
        *final(bitmap) == with_bit(*old(bitmap), n as int),
{
    *bitmap = *bitmap | (1u32 << (n as u32));
}

fn unset_bit(bitmap: &mut u32, n: usize)
    requires
        n < 32,
    ensures
        *final(bitmap) == without_bit(*old(bitmap), n as int),
{
    *bitmap = *bitmap & !(1u32 << (n as u32));
}

fn test_bit(bitmap: u32, n: usize) -> (r: u32)
    requires
        n < 32,
    ensures
        r != 0 <==> bit32(bitmap, n as int),
{
    proof {
        lemma_bit32_ops(bitmap, n as u32, 0);
    }
    bitmap & (1u32 << (n as u32))
}

/// Whether the `width` bits of `bitmap` from bit `i` on are all clear.
pub open spec fn clear_at(bitmap: u32, i: int, width: int) -> bool {
    forall|k: int| i <= k < i + width ==> !bit32(bitmap, k)
}

/// The lowest `i >= from` such that bits `i` to `i + width - 1` of `bitmap` are
/// clear and lie below bit `max`; -1 if there is none.
pub open spec fn first_clear(bitmap: u32, max: int, width: int, from: int) -> int
    decreases max - from,
{
    if from < 0 || from + width > max {
        -1
    } else if clear_at(bitmap, from, width) {
        from
    } else {
        first_clear(bitmap, max, width, from + 1)
    }
}

/// What `first_clear` finds is clear, in range, and nothing lower is.
pub proof fn lemma_first_clear(bitmap: u32, max: int, width: int, from: int)
    requires
        0 <= from,
        width >= 1,
    ensures
        ({
            let r = first_clear(bitmap, max, width, from);
            &&& (r == -1 || (from <= r && r + width <= max && clear_at(bitmap, r, width)))
            &&& forall|j: int| from <= j && j + width <= max && (r == -1 || j < r) ==> !clear_at(bitmap, j, width)
        }),
    decreases max - from,
{
    if from + width <= max && !clear_at(bitmap, from, width) {
        lemma_first_clear(bitmap, max, width, from + 1);
    }
}

/// The width of the run of clear bits that `mask` asks for.
pub open spec fn mask_width(mask: u32) -> int {
    if mask == 3 {
        2
    } else {
        1
    }
}

/// Finds the lowest place below bit `max` where `bitmap` has all the bits of
/// `mask` clear: one free bit for mask 1, two neighbouring free bits for mask 3.
fn search_rightmost_unset(bitmap: u32, max: usize, mask: u32) -> (r: i32)
    requires
        max < 32,
        mask == 1 || mask == 3,
    ensures
        r == first_clear(bitmap, max as int, mask_width(mask), 0),
{
    let mut i: i32 = 0;
    let mut m: u32 = mask;
    let ghost w = mask_width(mask);
    proof {
        assert(mask << 0u32 == mask) by (bit_vector);
    }
    while m < (1u32 << (max as u32))
        invariant
            0 <= i <= 31,
            max < 32,
            mask == 1 || mask == 3,
            w == mask_width(mask),
            m == mask << (i as u32),
            first_clear(bitmap, max as int, w, 0) == first_clear(bitmap, max as int, w, i as int),
        decreases 32 - i,
    {
        proof {
            lemma_mask_pair(bitmap, i as u32, max as u32);
            assert(i + w <= max);
            assert(bit32(bitmap, i as int) <==> (bitmap >> (i as u32)) & 1 == 1);
            assert(bit32(bitmap, i + 1) <==> (bitmap >> ((i + 1) as u32)) & 1 == 1);
        }
        if (!bitmap & m) == m {
            assert(clear_at(bitmap, i as int, w));
            return i;
        }
        proof {
            assert(bit32(bitmap, i as int) || (w == 2 && bit32(bitmap, i + 1)));
            assert(!clear_at(bitmap, i as int, w));
        }
        m = m << 1;
        i += 1;
    }
    proof {
        lemma_mask_pair(bitmap, i as u32, max as u32);
    }
    -1
}

/// The allocator's state: the region slots, and one bitmap each for the slots
/// and the registers in use.
#[derive(Clone, Copy, PartialEq, Eq, Debug)]
pub struct pmp_table {
    pub regions: [pmp_region; 16],
    pub reg_bitmap: u32,
    pub region_def_bitmap: u32,
}

impl pmp_table {
    /// Whether slot `i` holds a region.
    pub open spec fn valid(&self, i: int) -> bool {
        0 <= i < PMP_MAX_N_REGION && bit32(self.region_def_bitmap, i)
    }

    /// Whether register `n` is marked as taken.
    pub open spec fn reg_taken(&self, n: int) -> bool {
        0 <= n < PMP_N_REG && bit32(self.reg_bitmap, n)
    }

    /// Every valid slot is well formed, every other slot is cleared, and no two
    /// valid regions that forbid overlap share an address.
    pub open spec fn wf(&self) -> bool {
        &&& forall|i: int| self.valid(i) ==> (#[trigger] self.regions[i]).wf()
        &&& forall|i: int|
            0 <= i < PMP_MAX_N_REGION && !self.valid(i) ==> #[trigger] self.regions[i]
                == empty_region()
        &&& forall|i: int, j: int|
            self.valid(i) && self.valid(j) && i != j && (#[trigger] self.regions[i]).allow_overlap
                == 0 && (#[trigger] self.regions[j]).allow_overlap == 0 ==> !self.regions[i].meets(
                self.regions[j].addr as int,
                self.regions[j].size as int,
            )
    }

    /// Whether `[addr, addr + size)` runs past the top of the address space or
    /// meets a valid region that forbids overlap.
    pub open spec fn overlaps(&self, addr: int, size: int) -> bool {
        addr + size > u64::MAX || exists|i: int|
            self.valid(i) && (#[trigger] self.regions[i]).allow_overlap == 0
                && self.regions[i].meets(addr, size)
    }

    /// The slot that the next region gets, or -1 if all are taken.
    pub open spec fn free_region(&self) -> int {
        first_clear(self.region_def_bitmap, PMP_MAX_N_REGION as int, 1, 0)
    }

    /// The first free register, or -1.
    pub open spec fn free_reg(&self) -> int {
        first_clear(self.reg_bitmap, PMP_N_REG as int, 1, 0)
    }

    /// The lower of the first two neighbouring free registers, or -1.
    pub open spec fn free_reg_pair(&self) -> int {
        first_clear(self.reg_bitmap, PMP_N_REG as int, 2, 0)
    }

    /// A table with no region and no register in use.
    pub fn new() -> (r: Self)
        ensures
            r.wf(),
            r.reg_bitmap == 0,
            r.region_def_bitmap == 0,
            forall|i: int| !r.valid(i),
            forall|i: int| 0 <= i < 16 ==> r.regions[i] == (pmp_region {
                size: 0,
                addrmode: 0,
                addr: 0,
                allow_overlap: 0,
                reg_idx: 0,
            }),
    {
        let r = pmp_table { regions: [pmp_region::new(); 16], reg_bitmap: 0, region_def_bitmap: 0 };
        assert forall|i: int| !r.valid(i) by {
            if 0 <= i < 32 {
                lemma_zero_has_no_bit(i as u32);
            }
        }
        r
    }
}

proof fn lemma_zero_has_no_bit(k: u32)
    by (bit_vector)
    requires
        k < 32,
    ensures
        (0u32 >> k) & 1 != 1,
{
}

fn get_free_reg_idx(pmp: &pmp_table) -> (r: pmpreg_id)
    ensures
        r == pmp.free_reg(),
{
    search_rightmost_unset(pmp.reg_bitmap, PMP_N_REG, 0x1)
}

fn get_conseq_free_reg_idx(pmp: &pmp_table) -> (r: pmpreg_id)
    ensures
        r == pmp.free_reg_pair(),
{
    search_rightmost_unset(pmp.reg_bitmap, PMP_N_REG, 0x3)
}

fn get_free_region_idx(pmp: &pmp_table) -> (r: region_id)
    ensures
        r == pmp.free_region(),
{
    search_rightmost_unset(pmp.region_def_bitmap, PMP_MAX_N_REGION, 0x1)
}

fn is_pmp_region_valid(pmp: &pmp_table, region_idx: region_id) -> (r: i32)
    ensures
        r != 0 <==> pmp.valid(region_idx as int),
{
    if region_idx < 0 || region_idx >= PMP_MAX_N_REGION as i32 {
        return 0;
    }
    if test_bit(pmp.region_def_bitmap, region_idx as usize) != 0 {
        1
    } else {
        0
    }
}

fn region_get_addr(pmp: &pmp_table, i: region_id) -> (r: u64)
    requires
        0 <= i < PMP_MAX_N_REGION,
    ensures
        r == pmp.regions[i as int].addr,
{
    pmp.regions[i as usize].addr
}

fn region_get_size(pmp: &pmp_table, i: region_id) -> (r: u64)
    requires
        0 <= i < PMP_MAX_N_REGION,
    ensures
        r == pmp.regions[i as int].size,
{
    pmp.regions[i as usize].size
}

fn region_allows_overlap(pmp: &pmp_table, i: region_id) -> (r: i32)
    requires
        0 <= i < PMP_MAX_N_REGION,
    ensures
        r == pmp.regions[i as int].allow_overlap,
{
    pmp.regions[i as usize].allow_overlap
}

fn region_register_idx(pmp: &pmp_table, i: region_id) -> (r: i32)
    requires
        0 <= i < PMP_MAX_N_REGION,
    ensures
        r == pmp.regions[i as int].reg_idx,
{
    pmp.regions[i as usize].reg_idx
}

/// The base address of region `i`, or 0 if slot `i` holds no region.
pub fn pmp_region_get_addr(pmp: &pmp_table, i: region_id) -> (r: u64)
    ensures
        r == if pmp.valid(i as int) { pmp.regions[i as int].addr } else { 0 },
{
    if is_pmp_region_valid(pmp, i) != 0 {
        return region_get_addr(pmp, i);
    }
    0
}

/// The size of region `i`, or 0 if slot `i` holds no region.
pub fn pmp_region_get_size(pmp: &pmp_table, i: region_id) -> (r: u64)
    ensures
        r == if pmp.valid(i as int) { pmp.regions[i as int].size } else { 0 },
{
    if is_pmp_region_valid(pmp, i) != 0 {
        return region_get_size(pmp, i);
    }
    0
}

/// Tells whether a new region `[addr, addr + size)` would run past the top of
/// the address space or meet a valid region that forbids overlap. Ranges that
/// only touch at an end do not meet.
fn detect_region_overlap(pmp: &pmp_table, addr: u64, size: u64) -> (r: i32)
    ensures
        r != 0 <==> pmp.overlaps(addr as int, size as int),
        r == 0 || r == 1,
{
    let input_end: u64 = match addr.checked_add(size) {
        Some(num) => num,
        None => { return 1; },
    };
    let mut region_overlap: i32 = 0;
    let mut i: usize = 0;
    while i < PMP_MAX_N_REGION
        invariant
            i <= PMP_MAX_N_REGION,
            input_end == addr + size,
            region_overlap == 0 || region_overlap == 1,
            region_overlap != 0 <==> exists|j: int|
                0 <= j < i && pmp.valid(j) && (#[trigger] pmp.regions[j]).allow_overlap == 0
                    && pmp.regions[j].meets(addr as int, size as int),
        decreases PMP_MAX_N_REGION - i,
    {
        if is_pmp_region_valid(pmp, i as i32) != 0 && region_allows_overlap(pmp, i as i32) == 0 {
            let epm_base = region_get_addr(pmp, i as i32);
            let epm_size = region_get_size(pmp, i as i32);
            if epm_base < input_end && (epm_base > addr || epm_size > addr - epm_base) {
                assert(pmp.regions[i as int].meets(addr as int, size as int));
                region_overlap = 1;
            }
        }
        i += 1;
    }
    region_overlap
}

/// Tells whether a new region `[addr, addr + size)` would run past the top of
/// the address space or meet a valid region that forbids overlap.
pub fn pmp_detect_region_overlap_atomic(pmp: &pmp_table, addr: u64, size: u64) -> (r: i32)
    ensures
        r != 0 <==> pmp.overlaps(addr as int, size as int),
        r == 0 || r == 1,
{
    detect_region_overlap(pmp, addr, size)
}

impl pmp_table {
    /// The register for the entry of a new power-of-two region, or -1.
    pub open spec fn napot_reg(&self, priority: pmp_priority) -> int {
        match priority {
            pmp_priority::PMP_PRI_ANY => self.free_reg(),
            pmp_priority::PMP_PRI_TOP => if self.reg_taken(0) { -1 } else { 0 },
            pmp_priority::PMP_PRI_BOTTOM => PMP_N_REG - 1,
        }
    }

    /// The register for the entry of a new top-of-range region, or -1. With
    /// priority `PMP_PRI_ANY` it is the upper one of two free neighbours.
    pub open spec fn tor_reg(&self, priority: pmp_priority) -> int {
        match priority {
            pmp_priority::PMP_PRI_ANY => if self.free_reg_pair() < 0 {
                -1
            } else {
                self.free_reg_pair() + 1
            },
            pmp_priority::PMP_PRI_TOP => if self.reg_taken(0) { -1 } else { 0 },
            pmp_priority::PMP_PRI_BOTTOM => -1,
        }
    }

    /// The register for the entry of a new region `[start, start + size)`, or -1.
    pub open spec fn init_reg(&self, start: u64, size: u64, priority: pmp_priority) -> int {
        if napot_range(start, size) {
            self.napot_reg(priority)
        } else {
            self.tor_reg(priority)
        }
    }

    /// The status with which `pmp_region_init` answers.
    pub open spec fn init_status(
        &self,
        start: u64,
        size: u64,
        priority: pmp_priority,
        allow_overlap: i32,
    ) -> usize {
        if size == 0 {
            SBI_ERR_SM_PMP_REGION_SIZE_INVALID
        } else if allow_overlap == 0 && self.overlaps(start as int, size as int) {
            SBI_ERR_SM_PMP_REGION_OVERLAP
        } else if size != u64::MAX && size % RISCV_PGSIZE != 0 {
            SBI_ERR_SM_PMP_REGION_NOT_PAGE_GRANULARITY
        } else if start % RISCV_PGSIZE != 0 {
            SBI_ERR_SM_PMP_REGION_NOT_PAGE_GRANULARITY
        } else if !napot_range(start, size) && priority != pmp_priority::PMP_PRI_ANY && !(priority
            == pmp_priority::PMP_PRI_TOP && start == 0) {
            SBI_ERR_SM_PMP_REGION_IMPOSSIBLE_TOR
        } else if self.free_region() < 0 {
            SBI_ERR_SM_PMP_REGION_MAX_REACHED
        } else if self.init_reg(start, size, priority) < 0 {
            SBI_ERR_SM_PMP_REGION_MAX_REACHED
        } else {
            SBI_ERR_SM_PMP_SUCCESS
        }
    }

    /// This table with the region `[start, start + size)` added in slot `rid`
    /// with its entry in register `reg`. A top-of-range region above register 0
    /// takes the register below too.
    pub open spec fn with_region(
        &self,
        rid: int,
        reg: int,
        start: u64,
        size: u64,
        allow_overlap: i32,
    ) -> pmp_table {
        let napot = napot_range(start, size);
        pmp_table {
            regions: vstd::array::spec_array_update(
                self.regions,
                rid,
                pmp_region {
                    size,
                    addrmode: if napot { PMP_A_NAPOT } else { PMP_A_TOR },
                    addr: start,
                    allow_overlap,
                    reg_idx: reg as i32,
                },
            ),
            region_def_bitmap: with_bit(self.region_def_bitmap, rid),
            reg_bitmap: if !napot && reg > 0 {
                with_bit(with_bit(self.reg_bitmap, reg - 1), reg)
            } else {
                with_bit(self.reg_bitmap, reg)
            },
        }
    }

    /// The table after `pmp_region_init` has created `[start, start + size)`.
    pub open spec fn after_init(
        &self,
        start: u64,
        size: u64,
        priority: pmp_priority,
        allow_overlap: i32,
    ) -> pmp_table {
        self.with_region(
            self.free_region(),
            self.init_reg(start, size, priority),
            start,
            size,
            allow_overlap,
        )
    }

    /// This table with the region of slot `rid` removed: the slot cleared and
    /// marked free, and the region's register, or both of its registers, marked free.
    pub open spec fn without_region(&self, rid: int) -> pmp_table {
        let r = self.regions[rid];
        pmp_table {
            regions: vstd::array::spec_array_update(self.regions, rid, empty_region()),
            region_def_bitmap: without_bit(self.region_def_bitmap, rid),
            reg_bitmap: if r.needs_two_entries() {
                without_bit(without_bit(self.reg_bitmap, r.reg_idx as int), r.reg_idx - 1)
            } else {
                without_bit(self.reg_bitmap, r.reg_idx as int)
            },
        }
    }

    /// The table after `pmp_region_free_atomic` on slot `rid`.
    pub open spec fn after_free(&self, rid: int) -> pmp_table {
        if self.valid(rid) {
            self.without_region(rid)
        } else {
            *self
        }
    }
}

proof fn lemma_page_granular(x: u64)
    by (bit_vector)
    ensures
        x & 4095 == 0 <==> x % 4096 == 0,
{
}

fn region_init(
    pmp: &mut pmp_table,
    i: region_id,
    addr: u64,
    size: u64,
    addrmode: u8,
    allow_overlap: i32,
    reg_idx: pmpreg_id,
)
    requires
        0 <= i < PMP_MAX_N_REGION,
    ensures
        final(pmp).regions[i as int] == (pmp_region { size, addrmode, addr, allow_overlap, reg_idx }),
        forall|j: int| 0 <= j < 16 && j != i ==> final(pmp).regions[j] == old(pmp).regions[j],
        final(pmp).reg_bitmap == old(pmp).reg_bitmap,
        final(pmp).region_def_bitmap == old(pmp).region_def_bitmap,
{
    pmp.regions[i as usize].addr = addr;
    pmp.regions[i as usize].size = size;
    pmp.regions[i as usize].addrmode = addrmode;
    pmp.regions[i as usize].allow_overlap = allow_overlap;
    pmp.regions[i as usize].reg_idx = reg_idx;
}

fn region_clear_all(pmp: &mut pmp_table, i: region_id)
    requires
        0 <= i < PMP_MAX_N_REGION,
    ensures
        final(pmp).regions[i as int] == (pmp_region {
            size: 0,
            addrmode: 0,
            addr: 0,
            allow_overlap: 0,
            reg_idx: 0,
        }),
        forall|j: int| 0 <= j < 16 && j != i ==> final(pmp).regions[j] == old(pmp).regions[j],
        final(pmp).reg_bitmap == old(pmp).reg_bitmap,
        final(pmp).region_def_bitmap == old(pmp).region_def_bitmap,
{
    pmp.regions[i as usize].addr = 0;
    pmp.regions[i as usize].size = 0;
    pmp.regions[i as usize].addrmode = 0;
    pmp.regions[i as usize].allow_overlap = 0;
    pmp.regions[i as usize].reg_idx = 0;
}

/// Adding a well-formed region that meets no valid region that forbids
/// overlap, or that itself allows overlap, keeps the table well formed.
proof fn lemma_add_keeps_wf(
    before: pmp_table,
    after: pmp_table,
    rid: int,
    reg: int,
    start: u64,
    size: u64,
    allow_overlap: i32,
)
    requires
        before.wf(),
        0 <= rid < 16,
        !before.valid(rid),
        after == before.with_region(rid, reg, start, size, allow_overlap),
        after.regions[rid].wf(),
        allow_overlap == 0 ==> !before.overlaps(start as int, size as int),
    ensures
        after.wf(),
        after.valid(rid),
        forall|k: int| k != rid ==> after.valid(k) == before.valid(k),
{
    broadcast use vstd::array::group_array_axioms;

    assert forall|k: int| after.valid(k) == (k == rid || before.valid(k)) by {
        lemma_bit32_update(before.region_def_bitmap, rid, k);
    }
    assert forall|i: int|
        0 <= i < PMP_MAX_N_REGION && !after.valid(i) implies #[trigger] after.regions[i]
        == empty_region() by {
        assert(after.regions[i] == before.regions[i]);
    }
    assert forall|i: int, j: int|
        after.valid(i) && after.valid(j) && i != j && (#[trigger] after.regions[i]).allow_overlap
            == 0 && (#[trigger] after.regions[j]).allow_overlap == 0 implies !after.regions[i].meets(
        after.regions[j].addr as int,
        after.regions[j].size as int,
    ) by {
        if i == rid {
            assert(before.valid(j) && before.regions[j].allow_overlap == 0);
            assert(!before.regions[j].meets(start as int, size as int));
        } else if j == rid {
            assert(before.valid(i) && before.regions[i].allow_overlap == 0);
            assert(!before.regions[i].meets(start as int, size as int));
        } else {
            assert(before.regions[i] == after.regions[i]);
            assert(before.regions[j] == after.regions[j]);
        }
    }
    assert forall|i: int| after.valid(i) implies (#[trigger] after.regions[i]).wf() by {
        if i != rid {
            assert(before.regions[i] == after.regions[i]);
        }
    }
}

/// Creates a region that one power-of-two entry can encode.
fn napot_region_init(
    pmp: &mut pmp_table,
    start: u64,
    size: u64,
    priority: pmp_priority,
    rid: &mut region_id,
    allow_overlap: i32,
) -> (r: usize)
    requires
        old(pmp).wf(),
        size != 0,
        napot_range(start, size),
        size == u64::MAX || size % RISCV_PGSIZE == 0,
        start % RISCV_PGSIZE == 0,
        allow_overlap == 0 ==> !old(pmp).overlaps(start as int, size as int),
    ensures
        r == old(pmp).init_status(start, size, priority, allow_overlap),
        r == SBI_ERR_SM_PMP_SUCCESS || r == SBI_ERR_SM_PMP_REGION_MAX_REACHED,
        r != SBI_ERR_SM_PMP_SUCCESS ==> *final(pmp) == *old(pmp) && *final(rid) == *old(rid),
        r == SBI_ERR_SM_PMP_SUCCESS ==> *final(rid) == old(pmp).free_region() && *final(pmp) == old(
            pmp,
        ).after_init(start, size, priority, allow_overlap),
        final(pmp).wf(),
        r == SBI_ERR_SM_PMP_SUCCESS ==> 0 <= *final(rid) < 16 && !old(pmp).valid(*final(rid) as int)
            && final(pmp).valid(*final(rid) as int),
        r == SBI_ERR_SM_PMP_SUCCESS ==> forall|k: int|
            k != *final(rid) ==> final(pmp).valid(k) == old(pmp).valid(k),
{
    proof {
        lemma_first_clear(pmp.region_def_bitmap, 16, 1, 0);
        lemma_first_clear(pmp.reg_bitmap, 8, 1, 0);
    }
    // find available pmp region idx
    let region_idx: region_id = get_free_region_idx(pmp);
    if region_idx < 0 || region_idx > PMP_MAX_N_REGION as i32 {
        return SBI_ERR_SM_PMP_REGION_MAX_REACHED;
    }
    let reg_idx: pmpreg_id;
    match priority {
        pmp_priority::PMP_PRI_ANY => {
            reg_idx = get_free_reg_idx(pmp);
            if reg_idx < 0 {
                return SBI_ERR_SM_PMP_REGION_MAX_REACHED;
            }
            if test_bit(pmp.reg_bitmap, reg_idx as usize) != 0 || reg_idx >= PMP_N_REG as i32 {
                return SBI_ERR_SM_PMP_REGION_MAX_REACHED;
            }
        },
        pmp_priority::PMP_PRI_TOP => {
            reg_idx = 0;
            if test_bit(pmp.reg_bitmap, reg_idx as usize) != 0 {
                return SBI_ERR_SM_PMP_REGION_MAX_REACHED;
            }
        },
        pmp_priority::PMP_PRI_BOTTOM => {
            /* the bottom register can be used by multiple regions,
             * so we don't check its availability */
            reg_idx = (PMP_N_REG - 1) as i32;
        },
    }
    *rid = region_idx;

    // initialize the region
    region_init(pmp, region_idx, start, size, PMP_A_NAPOT, allow_overlap, reg_idx);
    set_bit(&mut pmp.region_def_bitmap, region_idx as usize);
    set_bit(&mut pmp.reg_bitmap, reg_idx as usize);
    proof {
        broadcast use vstd::array::group_array_axioms;

        assert(clear_at(old(pmp).region_def_bitmap, region_idx as int, 1));
        assert(!bit32(old(pmp).region_def_bitmap, region_idx as int));
        assert(pmp.regions =~= old(pmp).after_init(start, size, priority, allow_overlap).regions);
        assert(*pmp == old(pmp).after_init(start, size, priority, allow_overlap));
        lemma_add_keeps_wf(
            *old(pmp),
            *pmp,
            region_idx as int,
            reg_idx as int,
            start,
            size,
            allow_overlap,
        );
    }
    SBI_ERR_SM_PMP_SUCCESS
}

/// Creates a region that needs a top-of-range entry.
fn tor_region_init(
    pmp: &mut pmp_table,
    start: u64,
    size: u64,
    priority: pmp_priority,
    rid: &mut region_id,
    allow_overlap: i32,
) -> (r: i32)
    requires
        old(pmp).wf(),
        size != 0,
        !napot_range(start, size),
        size == u64::MAX || size % RISCV_PGSIZE == 0,
        start % RISCV_PGSIZE == 0,
        priority != pmp_priority::PMP_PRI_BOTTOM,
        priority == pmp_priority::PMP_PRI_TOP ==> start == 0,
        allow_overlap == 0 ==> !old(pmp).overlaps(start as int, size as int),
    ensures
        r == old(pmp).init_status(start, size, priority, allow_overlap),
        r == SBI_ERR_SM_PMP_SUCCESS || r == SBI_ERR_SM_PMP_REGION_MAX_REACHED,
        r != SBI_ERR_SM_PMP_SUCCESS ==> *final(pmp) == *old(pmp) && *final(rid) == *old(rid),
        r == SBI_ERR_SM_PMP_SUCCESS ==> *final(rid) == old(pmp).free_region() && *final(pmp) == old(
            pmp,
        ).after_init(start, size, priority, allow_overlap),
        final(pmp).wf(),
        r == SBI_ERR_SM_PMP_SUCCESS ==> 0 <= *final(rid) < 16 && !old(pmp).valid(*final(rid) as int)
            && final(pmp).valid(*final(rid) as int),
        r == SBI_ERR_SM_PMP_SUCCESS ==> forall|k: int|
            k != *final(rid) ==> final(pmp).valid(k) == old(pmp).valid(k),
{
    proof {
        lemma_first_clear(pmp.region_def_bitmap, 16, 1, 0);
        lemma_first_clear(pmp.reg_bitmap, 8, 2, 0);
    }
    let region_idx: region_id = get_free_region_idx(pmp);
    if region_idx < 0 || region_idx > PMP_MAX_N_REGION as i32 {
        return SBI_ERR_SM_PMP_REGION_MAX_REACHED as i32;
    }
    // the register of the region's own entry
    let reg_idx: pmpreg_id;
    match priority {
        pmp_priority::PMP_PRI_ANY => {
            let low = get_conseq_free_reg_idx(pmp);
            if low < 0 {
                return SBI_ERR_SM_PMP_REGION_MAX_REACHED as i32;
            }
            assert(clear_at(pmp.reg_bitmap, low as int, 2));
            assert(!bit32(pmp.reg_bitmap, low as int) && !bit32(pmp.reg_bitmap, low + 1));
            if test_bit(pmp.reg_bitmap, low as usize) != 0 || test_bit(
                pmp.reg_bitmap,
                low as usize + 1,
            ) != 0 || low + 1 >= PMP_N_REG as i32 {
                return SBI_ERR_SM_PMP_REGION_MAX_REACHED as i32;
            }
            reg_idx = low + 1;
        },
        _ => {
            reg_idx = 0;
            if test_bit(pmp.reg_bitmap, reg_idx as usize) != 0 {
                return SBI_ERR_SM_PMP_REGION_MAX_REACHED as i32;
            }
        },
    }
    *rid = region_idx;

    // initialize the region
    region_init(pmp, region_idx, start, size, PMP_A_TOR, allow_overlap, reg_idx);
    set_bit(&mut pmp.region_def_bitmap, region_idx as usize);
    if reg_idx > 0 {
        set_bit(&mut pmp.reg_bitmap, (reg_idx - 1) as usize);
    }
    set_bit(&mut pmp.reg_bitmap, reg_idx as usize);
    proof {
        broadcast use vstd::array::group_array_axioms;

        assert(clear_at(old(pmp).region_def_bitmap, region_idx as int, 1));
        assert(!bit32(old(pmp).region_def_bitmap, region_idx as int));
        assert(pmp.regions =~= old(pmp).after_init(start, size, priority, allow_overlap).regions);
        assert(*pmp == old(pmp).after_init(start, size, priority, allow_overlap));
        lemma_add_keeps_wf(
            *old(pmp),
            *pmp,
            region_idx as int,
            reg_idx as int,
            start,
            size,
            allow_overlap,
        );
    }
    SBI_ERR_SM_PMP_SUCCESS as i32
}

/// Creates the region `[start, start + size)` and puts its id into `rid`.
///
/// The range must not be empty, must not meet a region that forbids overlap
/// unless `allow_overlap` is set, and must start and end on a page boundary
/// (or have the size that stands for the whole address space). A range that is
/// a naturally aligned power of two takes one register, chosen by `priority`;
/// any other takes two free neighbouring registers, or register 0 alone if it
/// starts at address 0 with top priority. On any failure the table and `rid`
/// are left as they were.
pub fn pmp_region_init(
    pmp: &mut pmp_table,
    start: u64,
    size: u64,
    priority: pmp_priority,
    rid: &mut region_id,
    allow_overlap: i32,
) -> (r: i32)
    requires
        old(pmp).wf(),
    ensures
        r == old(pmp).init_status(start, size, priority, allow_overlap),
        r != SBI_ERR_SM_PMP_SUCCESS ==> *final(pmp) == *old(pmp) && *final(rid) == *old(rid),
        r == SBI_ERR_SM_PMP_SUCCESS ==> *final(rid) == old(pmp).free_region() && *final(pmp) == old(
            pmp,
        ).after_init(start, size, priority, allow_overlap),
        final(pmp).wf(),
        r == SBI_ERR_SM_PMP_SUCCESS ==> 0 <= *final(rid) < 16 && !old(pmp).valid(*final(rid) as int)
            && final(pmp).valid(*final(rid) as int),
        r == SBI_ERR_SM_PMP_SUCCESS ==> forall|k: int|
            k != *final(rid) ==> final(pmp).valid(k) == old(pmp).valid(k),
{
    if size == 0 {
        return SBI_ERR_SM_PMP_REGION_SIZE_INVALID as i32;
    }
    /* overlap detection */
    if allow_overlap == 0 {
        if detect_region_overlap(pmp, start, size) != 0 {
            return SBI_ERR_SM_PMP_REGION_OVERLAP as i32;
        }
    }
    proof {
        lemma_page_granular(size);
        lemma_page_granular(start);
    }
    /* PMP granularity check */
    if size != u64::MAX && (size & (RISCV_PGSIZE - 1)) != 0 {
        return SBI_ERR_SM_PMP_REGION_NOT_PAGE_GRANULARITY as i32;
    }
    if (start & (RISCV_PGSIZE - 1)) != 0 {
        return SBI_ERR_SM_PMP_REGION_NOT_PAGE_GRANULARITY as i32;
    }
    /* if the address covers the entire RAM or it's NAPOT */
    if (size == u64::MAX && start == 0) || ((size & (size - 1)) == 0 && (start & (size - 1))
        == 0) {
        napot_region_init(pmp, start, size, priority, rid, allow_overlap) as i32
    } else {
        if priority != pmp_priority::PMP_PRI_ANY && (priority != pmp_priority::PMP_PRI_TOP
            || start != 0) {
            return SBI_ERR_SM_PMP_REGION_IMPOSSIBLE_TOR as i32;
        }
        tor_region_init(pmp, start, size, priority, rid, allow_overlap)
    }
}

/// `pmp_region_init` for a caller that holds the table exclusively, as the
/// mutable borrow shows.
pub fn pmp_region_init_atomic(
    pmp: &mut pmp_table,
    start: u64,
    size: u64,
    priority: pmp_priority,
    rid: &mut region_id,
    allow_overlap: i32,
) -> (r: i32)
    requires
        old(pmp).wf(),
    ensures
        r == old(pmp).init_status(start, size, priority, allow_overlap),
        r != SBI_ERR_SM_PMP_SUCCESS ==> *final(pmp) == *old(pmp) && *final(rid) == *old(rid),
        r == SBI_ERR_SM_PMP_SUCCESS ==> *final(rid) == old(pmp).free_region() && *final(pmp) == old(
            pmp,
        ).after_init(start, size, priority, allow_overlap),
        final(pmp).wf(),
        r == SBI_ERR_SM_PMP_SUCCESS ==> 0 <= *final(rid) < 16 && !old(pmp).valid(*final(rid) as int)
            && final(pmp).valid(*final(rid) as int),
        r == SBI_ERR_SM_PMP_SUCCESS ==> forall|k: int|
            k != *final(rid) ==> final(pmp).valid(k) == old(pmp).valid(k),
{
    pmp_region_init(pmp, start, size, priority, rid, allow_overlap)
}

/// Removes region `region_idx`: frees its slot and its registers and clears
/// the slot. Fails, changing nothing, if the slot holds no region.
pub fn pmp_region_free_atomic(pmp: &mut pmp_table, region_idx: i32) -> (r: i32)
    requires
        old(pmp).wf(),
    ensures
        r == if old(pmp).valid(region_idx as int) {
            SBI_ERR_SM_PMP_SUCCESS
        } else {
            SBI_ERR_SM_PMP_REGION_INVALID
        },
        *final(pmp) == old(pmp).after_free(region_idx as int),
        final(pmp).wf(),
        forall|k: int| final(pmp).valid(k) == (k != region_idx && old(pmp).valid(k)),
{
    if is_pmp_region_valid(pmp, region_idx) == 0 {
        return SBI_ERR_SM_PMP_REGION_INVALID as i32;
    }
    assert(pmp.regions[region_idx as int].wf());
    let reg_idx = region_register_idx(pmp, region_idx);
    let two = region_needs_two_entries(pmp, region_idx);
    unset_bit(&mut pmp.region_def_bitmap, region_idx as usize);
    unset_bit(&mut pmp.reg_bitmap, reg_idx as usize);
    if two != 0 {
        unset_bit(&mut pmp.reg_bitmap, reg_idx as usize - 1);
    }
    region_clear_all(pmp, region_idx);
    proof {
        broadcast use vstd::array::group_array_axioms;

        assert(pmp.regions =~= old(pmp).without_region(region_idx as int).regions);
        assert(*pmp == old(pmp).without_region(region_idx as int));
        assert forall|k: int| pmp.valid(k) == (k != region_idx && old(pmp).valid(k)) by {
            lemma_bit32_update(old(pmp).region_def_bitmap, region_idx as int, k);
        }
        assert forall|i: int| pmp.valid(i) implies (#[trigger] pmp.regions[i]).wf() by {
            assert(pmp.regions[i] == old(pmp).regions[i]);
        }
        assert forall|i: int|
            0 <= i < PMP_MAX_N_REGION && !pmp.valid(i) implies #[trigger] pmp.regions[i]
            == empty_region() by {
            if i != region_idx {
                assert(pmp.regions[i] == old(pmp).regions[i]);
            }
        }
        assert forall|i: int, j: int|
            pmp.valid(i) && pmp.valid(j) && i != j && (#[trigger] pmp.regions[i]).allow_overlap == 0
                && (#[trigger] pmp.regions[j]).allow_overlap == 0 implies !pmp.regions[i].meets(
            pmp.regions[j].addr as int,
            pmp.regions[j].size as int,
        ) by {
            assert(pmp.regions[i] == old(pmp).regions[i]);
            assert(pmp.regions[j] == old(pmp).regions[j]);
        }
    }
    SBI_ERR_SM_PMP_SUCCESS as i32
}

fn region_is_tor(pmp: &pmp_table, i: region_id) -> (r: bool)
    requires
        0 <= i < PMP_MAX_N_REGION,
    ensures
        r == pmp.regions[i as int].is_tor(),
{
    pmp.regions[i as usize].addrmode == PMP_A_TOR
}

fn region_needs_two_entries(pmp: &pmp_table, i: region_id) -> (r: i32)
    requires
        0 <= i < PMP_MAX_N_REGION,
    ensures
        r != 0 <==> pmp.regions[i as int].needs_two_entries(),
{
    if region_is_tor(pmp, i) && pmp.regions[i as usize].reg_idx > 0 {
        1
    } else {
        0
    }
}

fn region_is_napot_all(pmp: &pmp_table, i: region_id) -> (r: bool)
    requires
        0 <= i < PMP_MAX_N_REGION,
    ensures
        r == (pmp.regions[i as int].addr == 0 && pmp.regions[i as int].size == u64::MAX),
{
    pmp.regions[i as usize].addr == 0 && pmp.regions[i as usize].size == u64::MAX
}

fn region_is_napot(pmp: &pmp_table, i: region_id) -> (r: bool)
    requires
        0 <= i < PMP_MAX_N_REGION,
    ensures
        r == pmp.regions[i as int].is_napot(),
{
    pmp.regions[i as usize].addrmode == PMP_A_NAPOT
}

fn region_pmpaddr_val(pmp: &pmp_table, i: region_id) -> (r: u64)
    requires
        0 <= i < PMP_MAX_N_REGION,
        pmp.regions[i as int].size >= 2,
    ensures
        r == pmp.regions[i as int].pmpaddr_val(),
{
    if region_is_napot_all(pmp, i) {
        u64::MAX
    } else if region_is_napot(pmp, i) {
        (pmp.regions[i as usize].addr | (pmp.regions[i as usize].size / 2 - 1)) >> 2
    } else if region_is_tor(pmp, i) {
        pmp.regions[i as usize].addr.wrapping_add(pmp.regions[i as usize].size) >> 2
    } else {
        0
    }
}

/// The `pmpcfg` register that configures entry `n`: on a 64-bit hart entries 0
/// to 7 lie in `pmpcfg0` and entries 8 to 15 in `pmpcfg2`.
pub open spec fn pmp_cfg_group(n: int) -> int {
    if n < PMP_PER_GROUP {
        0
    } else {
        2
    }
}

/// The configuration byte in place `slot` of a `pmpcfg` register.
pub open spec fn cfg_entry(cfg: u64, slot: int) -> u8 {
    ((cfg >> ((8 * slot) as u64)) & 0xff) as u8
}

/// `cfg` with the configuration byte in place `slot` replaced by `entry`.
pub open spec fn cfg_with_entry(cfg: u64, slot: int, entry: u8) -> u64 {
    ((entry as u64) << ((8 * slot) as u64)) | (cfg & !(0xffu64 << ((8 * slot) as u64)))
}

proof fn lemma_cfg_bits(cfg: u64, s: u64, k: u64, e: u8)
    by (bit_vector)
    requires
        s < 8,
        k < 8,
    ensures
        (((((e as u64) << ((8 * s) as u64)) | (cfg & !(0xffu64 << ((8 * s) as u64)))) >> ((8
            * k) as u64)) & 0xff) as u8 == if k == s {
            e
        } else {
            ((cfg >> ((8 * k) as u64)) & 0xff) as u8
        },
        (0u64 << ((8 * s) as u64)) | (cfg & !(0xffu64 << ((8 * s) as u64))) == cfg & !(0xffu64 << ((8
            * s) as u64)),
        0u64 | (cfg & !(0xffu64 << ((8 * s) as u64))) == cfg & !(0xffu64 << ((8 * s) as u64)),
{
}

impl hart_state {
    /// This hart with entry `n` of the protection registers rewritten: address
    /// register `n` holds `addr` and the entry's configuration byte is `entry`.
    pub open spec fn with_pmp_entry(&self, n: int, addr: u64, entry: u8) -> hart_state {
        let g = pmp_cfg_group(n);
        hart_state {
            pmpaddr: vstd::array::spec_array_update(self.pmpaddr, n, addr),
            pmpcfg: vstd::array::spec_array_update(
                self.pmpcfg,
                g,
                cfg_with_entry(self.pmpcfg[g], n % 8, entry),
            ),
            ..*self
        }
    }
}

impl pmp_table {
    /// `hart` with the entries of region `rid` programmed to grant `perm`: the
    /// region's own entry holds its address encoding, its address mode and the
    /// permission bits; the entry below it, if the region has one, holds the
    /// region's base and the mode "off". Unchanged if slot `rid` holds no region.
    pub open spec fn hart_after_set(&self, hart: hart_state, rid: int, perm: u8) -> hart_state {
        let r = self.regions[rid];
        let n = r.reg_idx as int;
        let own = hart.with_pmp_entry(n, r.pmpaddr_val(), r.addrmode | (perm & PMP_ALL_PERM));
        if !self.valid(rid) {
            hart
        } else if r.needs_two_entries() {
            own.with_pmp_entry(n - 1, r.addr >> 2, 0)
        } else {
            own
        }
    }

    /// `hart` with the entries of region `rid` cleared. Unchanged if slot `rid`
    /// holds no region.
    pub open spec fn hart_after_unset(&self, hart: hart_state, rid: int) -> hart_state {
        let r = self.regions[rid];
        let n = r.reg_idx as int;
        if !self.valid(rid) {
            hart
        } else if r.needs_two_entries() {
            hart.with_pmp_entry(n, 0, 0).with_pmp_entry(n - 1, 0, 0)
        } else {
            hart.with_pmp_entry(n, 0, 0)
        }
    }
}

fn region_pmpcfg_val(pmp: &pmp_table, i: region_id, reg_idx: pmpreg_id, perm_bits: u8) -> (r: u64)
    requires
        0 <= i < PMP_MAX_N_REGION,
        0 <= reg_idx,
    ensures
        r == ((pmp.regions[i as int].addrmode | perm_bits) as u64) << ((8 * (reg_idx % 8)) as u64),
{
    ((pmp.regions[i as usize].addrmode | perm_bits) as u64) << ((8 * (reg_idx as usize
        % PMP_PER_GROUP)) as u64)
}

/// The number of the `pmpcfg` register that configures entry `n`.
fn pmp_group(n: usize) -> (g: usize)
    ensures
        g == pmp_cfg_group(n as int),
{
    if n < PMP_PER_GROUP {
        0
    } else {
        2
    }
}

/// Writes entry `n`: `addr` into its address register, and `pmpc`, which holds
/// the entry's configuration byte in its place, into its byte of `pmpcfg`
/// register `g`.
fn PMP_SET(hart: &mut hart_state, n: usize, g: usize, addr: u64, pmpc: u64, Ghost(entry): Ghost<u8>)
    requires
        n < 16,
        g == pmp_cfg_group(n as int),
        pmpc == (entry as u64) << ((8 * (n % 8)) as u64),
    ensures
        *final(hart) == old(hart).with_pmp_entry(n as int, addr, entry),
{
    broadcast use vstd::array::group_array_axioms;

    let oldcfg: u64 = hart.pmpcfg[g];
    let cfg = pmpc | (oldcfg & !(0xffu64 << ((8 * (n % PMP_PER_GROUP)) as u64)));
    hart.pmpaddr[n] = addr;
    hart.pmpcfg[g] = cfg;
    assert(hart.pmpaddr =~= old(hart).with_pmp_entry(n as int, addr, entry).pmpaddr);
    assert(hart.pmpcfg =~= old(hart).with_pmp_entry(n as int, addr, entry).pmpcfg);
}

/// Clears entry `n`: its address register and its configuration byte.
fn PMP_UNSET(hart: &mut hart_state, n: usize, g: usize)
    requires
        n < 16,
        g == pmp_cfg_group(n as int),
    ensures
        *final(hart) == old(hart).with_pmp_entry(n as int, 0, 0),
{
    broadcast use vstd::array::group_array_axioms;

    let pmpc: u64 = hart.pmpcfg[g] & !(0xffu64 << ((8 * (n % PMP_PER_GROUP)) as u64));
    proof {
        lemma_cfg_bits(hart.pmpcfg[g as int], (n % 8) as u64, 0, 0);
    }
    hart.pmpaddr[n] = 0;
    hart.pmpcfg[g] = pmpc;
    assert(hart.pmpaddr =~= old(hart).with_pmp_entry(n as int, 0, 0).pmpaddr);
    assert(hart.pmpcfg =~= old(hart).with_pmp_entry(n as int, 0, 0).pmpcfg);
}

/// `hart` with entries 0 to `n - 1` of the protection registers cleared.
pub open spec fn hart_pmp_cleared(hart: hart_state, n: nat) -> hart_state
    decreases n,
{
    if n == 0 {
        hart
    } else {
        hart_pmp_cleared(hart, (n - 1) as nat).with_pmp_entry(n - 1, 0, 0)
    }
}

/// Clears the entries that the allocator hands out, on one hart.
pub fn pmp_init(hart: &mut hart_state)
    ensures
        *final(hart) == hart_pmp_cleared(*old(hart), PMP_N_REG as nat),
{
    let pmpaddr: u64 = 0;
    let pmpcfg: u64 = 0;
    let mut i: usize = 0;
    while i < PMP_N_REG
        invariant
            i <= PMP_N_REG,
            pmpaddr == 0,
            pmpcfg == 0,
            *hart == hart_pmp_cleared(*old(hart), i as nat),
        decreases PMP_N_REG - i,
    {
        let g = pmp_group(i);
        proof {
            lemma_cfg_bits(0, (i % 8) as u64, 0, 0);
            assert(0u64 << ((8 * (i % 8)) as u64) == 0) by (bit_vector);
        }
        PMP_SET(hart, i, g, pmpaddr, pmpcfg, Ghost(0));
        i += 1;
    }
}

/// Programs the entries of region `region_idx` on one hart so that they grant
/// the read, write and execute bits of `perm`. Fails, changing nothing, if
/// the slot holds no region.
pub fn pmp_set_keystone(pmp: &pmp_table, hart: &mut hart_state, region_idx: i32, perm: u8) -> (r:
    i32)
    requires
        pmp.wf(),
    ensures
        r == if pmp.valid(region_idx as int) {
            SBI_ERR_SM_PMP_SUCCESS
        } else {
            SBI_ERR_SM_PMP_REGION_INVALID
        },
        *final(hart) == pmp.hart_after_set(*old(hart), region_idx as int, perm),
{
    if is_pmp_region_valid(pmp, region_idx) == 0 {
        return SBI_ERR_SM_PMP_REGION_INVALID as i32;
    }
    assert(pmp.regions[region_idx as int].wf());
    let perm_bits: u8 = perm & PMP_ALL_PERM;
    let reg_idx: pmpreg_id = region_register_idx(pmp, region_idx);
    let pmpcfg: u64 = region_pmpcfg_val(pmp, region_idx, reg_idx, perm_bits);
    let pmpaddr: u64 = region_pmpaddr_val(pmp, region_idx);

    let n: usize = reg_idx as usize;
    PMP_SET(
        hart,
        n,
        pmp_group(n),
        pmpaddr,
        pmpcfg,
        Ghost(pmp.regions[region_idx as int].addrmode | perm_bits),
    );

    /* TOR decoding with 2 registers */
    if region_needs_two_entries(pmp, region_idx) != 0 {
        let low = n - 1;
        let lowaddr = region_get_addr(pmp, region_idx) >> 2;
        proof {
            assert(0u64 << ((8 * (low % 8)) as u64) == 0) by (bit_vector);
        }
        PMP_SET(hart, low, pmp_group(low), lowaddr, 0, Ghost(0));
    }
    SBI_ERR_SM_PMP_SUCCESS as i32
}

/// Clears the entries of region `region_idx` on one hart. Fails, changing
/// nothing, if the slot holds no region.
pub fn pmp_unset(pmp: &pmp_table, hart: &mut hart_state, region_idx: i32) -> (r: usize)
    requires
        pmp.wf(),
    ensures
        r == if pmp.valid(region_idx as int) {
            SBI_ERR_SM_PMP_SUCCESS
        } else {
            SBI_ERR_SM_PMP_REGION_INVALID
        },
        *final(hart) == pmp.hart_after_unset(*old(hart), region_idx as int),
{
    if is_pmp_region_valid(pmp, region_idx) == 0 {
        return SBI_ERR_SM_PMP_REGION_INVALID;
    }
    assert(pmp.regions[region_idx as int].wf());
    let reg_idx: pmpreg_id = region_register_idx(pmp, region_idx);
    let n: usize = reg_idx as usize;
    PMP_UNSET(hart, n, pmp_group(n));
    if region_needs_two_entries(pmp, region_idx) != 0 {
        let low = n - 1;
        PMP_UNSET(hart, low, pmp_group(low));
    }
    SBI_ERR_SM_PMP_SUCCESS
}

/// Programs the entries of region `region_idx` on every started hart of the
/// platform so that they grant `perm`, and returns when all have done so.
/// Fails, changing nothing, if the slot holds no region.
pub fn pmp_set_global(pmp: &pmp_table, m: &mut machine, region_idx: i32, perm: u8) -> (r: i32)
    requires
        pmp.wf(),
    ensures
        r == if pmp.valid(region_idx as int) {
            SBI_ERR_SM_PMP_SUCCESS
        } else {
            SBI_ERR_SM_PMP_REGION_INVALID
        },
        *final(m) == broadcast_result(*pmp, *old(m), region_idx as int, true, perm),
{
    if is_pmp_region_valid(pmp, region_idx) == 0 {
        proof {
            lemma_broadcast_invalid(*pmp, *m, region_idx as int, true, perm);
        }
        return SBI_ERR_SM_PMP_REGION_INVALID as i32;
    }
    send_and_sync_pmp_ipi(pmp, m, region_idx, SBI_PMP_IPI_TYPE_SET as i32, perm);
    SBI_ERR_SM_PMP_SUCCESS as i32
}

/// Clears the entries of region `region_idx` on every started hart of the
/// platform, and returns when all have done so. Fails, changing nothing, if
/// the slot holds no region.
pub fn pmp_unset_global(pmp: &pmp_table, m: &mut machine, region_idx: i32) -> (r: i32)
    requires
        pmp.wf(),
    ensures
        r == if pmp.valid(region_idx as int) {
            SBI_ERR_SM_PMP_SUCCESS
        } else {
            SBI_ERR_SM_PMP_REGION_INVALID
        },
        *final(m) == broadcast_result(*pmp, *old(m), region_idx as int, false, PMP_NO_PERM),
{
    if is_pmp_region_valid(pmp, region_idx) == 0 {
        proof {
            lemma_broadcast_invalid(*pmp, *m, region_idx as int, false, PMP_NO_PERM);
        }
        return SBI_ERR_SM_PMP_REGION_INVALID as i32;
    }
    send_and_sync_pmp_ipi(pmp, m, region_idx, SBI_PMP_IPI_TYPE_UNSET as i32, PMP_NO_PERM);
    SBI_ERR_SM_PMP_SUCCESS as i32
}

/// Two valid regions that both forbid overlap have no address in common.
pub proof fn lemma_regions_disjoint(pmp: pmp_table, i: int, j: int, a: int)
    requires
        pmp.wf(),
        pmp.valid(i),
        pmp.valid(j),
        i != j,
        pmp.regions[i].allow_overlap == 0,
        pmp.regions[j].allow_overlap == 0,
    ensures
        !(pmp.regions[i].contains(a) && pmp.regions[j].contains(a)),
{
    assert(!pmp.regions[i].meets(pmp.regions[j].addr as int, pmp.regions[j].size as int));
}

/// A range that is not empty and fits the address space is reported as
/// overlapping exactly when it has an address in common with a valid region
/// that forbids overlap. So a range that only touches such a region, ending
/// where it begins or beginning where it ends, is not.
pub proof fn lemma_overlap_means_shared_address(pmp: pmp_table, addr: u64, size: u64)
    requires
        pmp.wf(),
        size > 0,
        addr + size <= u64::MAX,
    ensures
        pmp.overlaps(addr as int, size as int) <==> exists|i: int, a: int|
            pmp.valid(i) && (#[trigger] pmp.regions[i]).allow_overlap == 0 && addr <= a < addr
                + size && #[trigger] pmp.regions[i].contains(a),
{
    if pmp.overlaps(addr as int, size as int) {
        let i = choose|i: int|
            pmp.valid(i) && (#[trigger] pmp.regions[i]).allow_overlap == 0 && pmp.regions[i].meets(
                addr as int,
                size as int,
            );
        let r = pmp.regions[i];
        assert(r.wf());
        let a = if r.addr >= addr {
            r.addr as int
        } else {
            addr as int
        };
        assert(pmp.regions[i].contains(a));
    }
    if exists|i: int, a: int|
        pmp.valid(i) && (#[trigger] pmp.regions[i]).allow_overlap == 0 && addr <= a < addr + size
            && #[trigger] pmp.regions[i].contains(a) {
        let (i, a) = choose|i: int, a: int|
            pmp.valid(i) && (#[trigger] pmp.regions[i]).allow_overlap == 0 && addr <= a < addr
                + size && #[trigger] pmp.regions[i].contains(a);
        assert(pmp.regions[i].meets(addr as int, size as int));
    }
}

/// When every slot holds a region, no region can be created.
pub proof fn lemma_full_table_rejects(
    pmp: pmp_table,
    start: u64,
    size: u64,
    priority: pmp_priority,
    allow_overlap: i32,
)
    requires
        forall|i: int| 0 <= i < PMP_MAX_N_REGION ==> pmp.valid(i),
    ensures
        pmp.free_region() == -1,
        pmp.init_status(start, size, priority, allow_overlap) != SBI_ERR_SM_PMP_SUCCESS,
{
    lemma_first_clear(pmp.region_def_bitmap, PMP_MAX_N_REGION as int, 1, 0);
    let r = pmp.free_region();
    if r != -1 {
        assert(pmp.valid(r));
        assert(clear_at(pmp.region_def_bitmap, r, 1));
        assert(!bit32(pmp.region_def_bitmap, r));
    }
}

/// While a slot is empty, a request that asks for the bottom register fails
/// only for what is wrong with the range itself.
pub proof fn lemma_bottom_needs_only_a_slot(pmp: pmp_table, start: u64, size: u64, i: int)
    requires
        0 <= i < PMP_MAX_N_REGION,
        !pmp.valid(i),
        size != 0,
        !pmp.overlaps(start as int, size as int),
        size == u64::MAX || size % RISCV_PGSIZE == 0,
        start % RISCV_PGSIZE == 0,
        napot_range(start, size),
    ensures
        pmp.init_status(start, size, pmp_priority::PMP_PRI_BOTTOM, 0) == SBI_ERR_SM_PMP_SUCCESS,
{
    lemma_first_clear(pmp.region_def_bitmap, PMP_MAX_N_REGION as int, 1, 0);
    assert(clear_at(pmp.region_def_bitmap, i, 1));
}

proof fn lemma_bit_round_trip(x: u32, n: u32, k: u32)
    by (bit_vector)
    requires
        n < 32,
        k < 32,
        (x >> n) & 1 != 1,
    ensures
        (x | (1u32 << n)) & !(1u32 << n) == x,
        (x >> k) & 1 != 1 ==> (((x | (1u32 << k)) | (1u32 << n)) & !(1u32 << n)) & !(1u32 << k) == x,
{
}

/// A region that has just been created is valid, and the table is well formed.
pub proof fn lemma_after_init(
    pmp: pmp_table,
    start: u64,
    size: u64,
    priority: pmp_priority,
    allow_overlap: i32,
)
    requires
        pmp.wf(),
        pmp.init_status(start, size, priority, allow_overlap) == SBI_ERR_SM_PMP_SUCCESS,
    ensures
        0 <= pmp.free_region() < PMP_MAX_N_REGION,
        !pmp.valid(pmp.free_region()),
        0 <= pmp.init_reg(start, size, priority) < PMP_N_REG,
        pmp.after_init(start, size, priority, allow_overlap).wf(),
        pmp.after_init(start, size, priority, allow_overlap).valid(pmp.free_region()),
        forall|k: int|
            k != pmp.free_region() ==> pmp.after_init(start, size, priority, allow_overlap).valid(k)
                == pmp.valid(k),
        forall|k: int|
            0 <= k < PMP_MAX_N_REGION && k != pmp.free_region() ==> pmp.after_init(
                start,
                size,
                priority,
                allow_overlap,
            ).regions[k] == pmp.regions[k],
        pmp.after_init(start, size, priority, allow_overlap).regions[pmp.free_region()] == (pmp_region {
            size,
            addrmode: if napot_range(start, size) { PMP_A_NAPOT } else { PMP_A_TOR },
            addr: start,
            allow_overlap,
            reg_idx: pmp.init_reg(start, size, priority) as i32,
        }),
{
    broadcast use vstd::array::group_array_axioms;

    lemma_first_clear(pmp.region_def_bitmap, 16, 1, 0);
    lemma_first_clear(pmp.reg_bitmap, 8, 1, 0);
    lemma_first_clear(pmp.reg_bitmap, 8, 2, 0);
    let rid = pmp.free_region();
    let reg = pmp.init_reg(start, size, priority);
    assert(clear_at(pmp.region_def_bitmap, rid, 1));
    assert(!bit32(pmp.region_def_bitmap, rid));
    let after = pmp.after_init(start, size, priority, allow_overlap);
    lemma_page_granular(size);
    lemma_page_granular(start);
    lemma_add_keeps_wf(pmp, after, rid, reg, start, size, allow_overlap);
}

/// Removing a region that was just created, with a priority other than
/// bottom, gives back the table as it was before.
pub proof fn lemma_free_undoes_init(
    pmp: pmp_table,
    start: u64,
    size: u64,
    priority: pmp_priority,
    allow_overlap: i32,
)
    requires
        pmp.wf(),
        pmp.init_status(start, size, priority, allow_overlap) == SBI_ERR_SM_PMP_SUCCESS,
        priority != pmp_priority::PMP_PRI_BOTTOM,
    ensures
        pmp.after_init(start, size, priority, allow_overlap).after_free(pmp.free_region()) == pmp,
{
    broadcast use vstd::array::group_array_axioms;

    lemma_after_init(pmp, start, size, priority, allow_overlap);
    lemma_first_clear(pmp.reg_bitmap, 8, 1, 0);
    lemma_first_clear(pmp.reg_bitmap, 8, 2, 0);
    let rid = pmp.free_region();
    let reg = pmp.init_reg(start, size, priority);
    let mid = pmp.after_init(start, size, priority, allow_overlap);
    let end = mid.after_free(rid);
    assert(!bit32(pmp.region_def_bitmap, rid));
    lemma_bit_round_trip(pmp.region_def_bitmap, rid as u32, rid as u32);
    assert(end.region_def_bitmap == pmp.region_def_bitmap);
    if napot_range(start, size) {
        assert(clear_at(pmp.reg_bitmap, reg, 1) || priority == pmp_priority::PMP_PRI_TOP);
        assert(!bit32(pmp.reg_bitmap, reg));
        lemma_bit_round_trip(pmp.reg_bitmap, reg as u32, reg as u32);
    } else if reg > 0 {
        assert(clear_at(pmp.reg_bitmap, reg - 1, 2));
        assert(!bit32(pmp.reg_bitmap, reg - 1) && !bit32(pmp.reg_bitmap, reg));
        lemma_bit_round_trip(pmp.reg_bitmap, reg as u32, (reg - 1) as u32);
    } else {
        assert(!bit32(pmp.reg_bitmap, reg));
        lemma_bit_round_trip(pmp.reg_bitmap, reg as u32, reg as u32);
    }
    assert(end.reg_bitmap == pmp.reg_bitmap);
    assert(end.regions =~= pmp.regions);
}

/// Removing a region keeps the table well formed and every other region as it is.
pub proof fn lemma_after_free(pmp: pmp_table, rid: int)
    requires
        pmp.wf(),
    ensures
        pmp.after_free(rid).wf(),
        forall|k: int| pmp.after_free(rid).valid(k) == (k != rid && pmp.valid(k)),
        forall|k: int|
            0 <= k < PMP_MAX_N_REGION && k != rid ==> pmp.after_free(rid).regions[k]
                == pmp.regions[k],
{
    broadcast use vstd::array::group_array_axioms;

    if pmp.valid(rid) {
        let after = pmp.after_free(rid);
        assert forall|k: int| after.valid(k) == (k != rid && pmp.valid(k)) by {
            lemma_bit32_update(pmp.region_def_bitmap, rid, k);
        }
        assert forall|i: int| after.valid(i) implies (#[trigger] after.regions[i]).wf() by {
            assert(after.regions[i] == pmp.regions[i]);
        }
        assert forall|i: int|
            0 <= i < PMP_MAX_N_REGION && !after.valid(i) implies #[trigger] after.regions[i]
            == empty_region() by {
            if i != rid {
                assert(after.regions[i] == pmp.regions[i]);
            }
        }
        assert forall|i: int, j: int|
            after.valid(i) && after.valid(j) && i != j && (#[trigger] after.regions[i]).allow_overlap
                == 0 && (#[trigger] after.regions[j]).allow_overlap == 0 implies !after.regions[i].meets(
            after.regions[j].addr as int,
            after.regions[j].size as int,
        ) by {
            assert(after.regions[i] == pmp.regions[i]);
            assert(after.regions[j] == pmp.regions[j]);
        }
    }
}

impl pmp_region {
    /// Whether the region satisfies what a valid slot always satisfies; for
    /// callers that cannot state `wf` themselves.
    pub fn is_wf(&self) -> (r: bool)
        ensures
            r == self.wf(),
    {
        proof {
            lemma_page_granular(self.size);
            lemma_page_granular(self.addr);
        }
        self.size > 0 && 0 <= self.reg_idx && self.reg_idx < PMP_N_REG as i32 && (self.addrmode
            == PMP_A_NAPOT || self.addrmode == PMP_A_TOR) && (self.allow_overlap != 0
            || self.addr.checked_add(self.size).is_some()) && (self.size == u64::MAX || (self.size
            & (RISCV_PGSIZE - 1)) == 0) && (self.addr & (RISCV_PGSIZE - 1)) == 0 && (self.addrmode
            != PMP_A_NAPOT || (self.size == u64::MAX && self.addr == 0) || ((self.size & (self.size
            - 1)) == 0 && (self.addr & (self.size - 1)) == 0)) && (self.addrmode != PMP_A_TOR
            || self.reg_idx != 0 || self.addr == 0)
    }
}

impl pmp_table {
    /// Whether the table is well formed; for callers that cannot state `wf` themselves.
    pub fn is_wf(&self) -> (r: bool)
        ensures
            r == self.wf(),
    {
        let mut i: usize = 0;
        while i < PMP_MAX_N_REGION
            invariant
                i <= PMP_MAX_N_REGION,
                forall|k: int| 0 <= k < i && self.valid(k) ==> (#[trigger] self.regions[k]).wf(),
                forall|k: int|
                    0 <= k < i && !self.valid(k) ==> #[trigger] self.regions[k] == empty_region(),
            decreases PMP_MAX_N_REGION - i,
        {
            if is_pmp_region_valid(self, i as i32) != 0 {
                if !self.regions[i].is_wf() {
                    return false;
                }
            } else {
                let r = &self.regions[i];
                if !(r.size == 0 && r.addrmode == 0 && r.addr == 0 && r.allow_overlap == 0
                    && r.reg_idx == 0) {
                    return false;
                }
            }
            i += 1;
        }
        let mut i: usize = 0;
        while i < PMP_MAX_N_REGION
            invariant
                i <= PMP_MAX_N_REGION,
                forall|k: int| self.valid(k) ==> (#[trigger] self.regions[k]).wf(),
                forall|k: int|
                    0 <= k < PMP_MAX_N_REGION && !self.valid(k) ==> #[trigger] self.regions[k]
                        == empty_region(),
                forall|a: int, b: int|
                    0 <= a < i && self.valid(a) && self.valid(b) && a != b
                        && (#[trigger] self.regions[a]).allow_overlap == 0
                        && (#[trigger] self.regions[b]).allow_overlap == 0
                        ==> !self.regions[a].meets(
                        self.regions[b].addr as int,
                        self.regions[b].size as int,
                    ),
            decreases PMP_MAX_N_REGION - i,
        {
            if is_pmp_region_valid(self, i as i32) != 0 && self.regions[i].allow_overlap == 0 {
                let mut j: usize = 0;
                while j < PMP_MAX_N_REGION
                    invariant
                        j <= PMP_MAX_N_REGION,
                        i < PMP_MAX_N_REGION,
                        self.valid(i as int),
                        self.regions[i as int].allow_overlap == 0,
                        forall|k: int| self.valid(k) ==> (#[trigger] self.regions[k]).wf(),
                        forall|b: int|
                            0 <= b < j && self.valid(b) && i != b
                                && (#[trigger] self.regions[b]).allow_overlap == 0
                                ==> !self.regions[i as int].meets(
                                self.regions[b].addr as int,
                                self.regions[b].size as int,
                            ),
                    decreases PMP_MAX_N_REGION - j,
                {
                    if j != i && is_pmp_region_valid(self, j as i32) != 0
                        && self.regions[j].allow_overlap == 0 {
                        let a = &self.regions[i];
                        let b = &self.regions[j];
                        assert(a.wf() && b.wf());
                        if a.addr < b.addr + b.size && a.addr + a.size > b.addr {
                            return false;
                        }
                    }
                    j += 1;
                }
            }
            i += 1;
        }
        true
    }
}


/// Whether a power-of-two entry with the address register `pmpaddr` matches
/// the address `a`: the bits of `a >> 2` above the run of low one bits of
/// `pmpaddr`, and above the zero bit that ends the run, are those of `pmpaddr`.
pub open spec fn napot_matches(pmpaddr: u64, a: u64) -> bool {
    ((a >> 2) ^ pmpaddr) & !(pmpaddr ^ ((pmpaddr + 1) as u64)) == 0
}

impl hart_state {
    /// The configuration byte of entry `n` of the protection registers.
    pub open spec fn pmp_entry(&self, n: int) -> u8 {
        cfg_entry(self.pmpcfg[pmp_cfg_group(n)], n % 8)
    }

    /// Whether entry `n` of the protection registers matches the address
    /// `a`, as the hart decodes it: a top-of-range entry matches from the
    /// address register below it, or from 0 for entry 0, up to its own; a
    /// power-of-two entry matches its aligned block; an entry that is off
    /// matches nothing.
    pub open spec fn pmp_matches(&self, n: int, a: u64) -> bool {
        let mode = self.pmp_entry(n) & crate::opensbi::PMP_A;
        if mode == PMP_A_NAPOT {
            napot_matches(self.pmpaddr[n], a)
        } else if mode == PMP_A_TOR {
            (if n == 0 { 0 } else { self.pmpaddr[n - 1] }) <= (a >> 2) < self.pmpaddr[n]
        } else if mode == crate::opensbi::PMP_A_NA4 {
            (a >> 2) == self.pmpaddr[n]
        } else {
            false
        }
    }

    /// The read, write and execute bits that entry `n` grants.
    pub open spec fn pmp_grants(&self, n: int) -> u8 {
        self.pmp_entry(n) & PMP_ALL_PERM
    }
}

proof fn lemma_napot_decode(addr: u64, size: u64, a: u64)
    by (bit_vector)
    requires
        size >= 8,
        size & ((size - 1) as u64) == 0,
        addr & ((size - 1) as u64) == 0,
    ensures
        ((a >> 2) ^ ((addr | ((size / 2 - 1) as u64)) >> 2)) & !(((addr | ((size / 2 - 1) as u64)) >> 2)
            ^ ((((addr | ((size / 2 - 1) as u64)) >> 2) + 1) as u64)) == 0 <==> (a >= addr && ((a
            - addr) as u64) < size),
{
}

proof fn lemma_tor_decode(lo: u64, hi: u64, a: u64)
    by (bit_vector)
    requires
        lo & 3 == 0,
        hi & 3 == 0,
    ensures
        ((lo >> 2) <= (a >> 2) && (a >> 2) < (hi >> 2)) <==> (lo <= a && a < hi),
        (a >> 2) < (hi >> 2) <==> a < hi,
{
}

proof fn lemma_mode_bits(mode: u8, perm: u8)
    by (bit_vector)
    requires
        mode == 0x18 || mode == 0x08,
    ensures
        (mode | (perm & 7)) & 0x18 == mode,
        (mode | (perm & 7)) & 7 == perm & 7,
        0u8 & 0x18 == 0,
{
}

proof fn lemma_all_ones_matches(p: u64, a: u64)
    by (bit_vector)
    requires
        p == 0xffff_ffff_ffff_ffffu64,
    ensures
        ((a >> 2) ^ p) & !(p ^ ((p + 1) as u64)) == 0,
        0u64 >> 2 == 0,
{
}

proof fn lemma_page_is_word_aligned(x: u64)
    by (bit_vector)
    requires
        x & 4095 == 0,
    ensures
        x & 3 == 0,
{
}

/// What programming a region means to the hart: once the entries of a
/// valid region are set, its own entry grants the read, write and execute
/// bits asked for and matches the addresses of the region, and no other.
/// The region of all memory matches every address. (A region that allows
/// overlap and runs past the top of the address space is left out.)
pub proof fn lemma_set_entry_matches_region(
    pmp: pmp_table,
    hart: hart_state,
    rid: int,
    perm: u8,
    a: u64,
)
    requires
        pmp.wf(),
        pmp.valid(rid),
        pmp.regions[rid].addr + pmp.regions[rid].size <= u64::MAX,
    ensures
        ({
            let r = pmp.regions[rid];
            let after = pmp.hart_after_set(hart, rid, perm);
            &&& after.pmp_grants(r.reg_idx as int) == perm & PMP_ALL_PERM
            &&& after.pmp_matches(r.reg_idx as int, a) <==> (r.contains(a as int) || (r.addr == 0
                && r.size == u64::MAX))
        }),
{
    broadcast use vstd::array::group_array_axioms;

    let r = pmp.regions[rid];
    assert(r.wf());
    let n = r.reg_idx as int;
    let entry = r.addrmode | (perm & PMP_ALL_PERM);
    let own = hart.with_pmp_entry(n, r.pmpaddr_val(), entry);
    let after = pmp.hart_after_set(hart, rid, perm);
    lemma_mode_bits(r.addrmode, perm);
    lemma_cfg_bits(hart.pmpcfg[0], n as u64, n as u64, entry);
    assert(pmp_cfg_group(n) == 0 && n % 8 == n);
    assert(own.pmpcfg[0] == cfg_with_entry(hart.pmpcfg[0], n, entry));
    assert(own.pmp_entry(n) == entry);
    assert(own.pmpaddr[n] == r.pmpaddr_val());
    if r.needs_two_entries() {
        lemma_cfg_bits(own.pmpcfg[0], (n - 1) as u64, n as u64, 0);
        assert(pmp_cfg_group(n - 1) == 0 && (n - 1) % 8 == n - 1);
        assert(after.pmpcfg[0] == cfg_with_entry(own.pmpcfg[0], n - 1, 0));
        assert(after.pmp_entry(n) == entry);
        assert(after.pmpaddr[n] == r.pmpaddr_val());
        assert(after.pmpaddr[n - 1] == r.addr >> 2);
    } else {
        assert(after == own);
    }
    assert(after.pmp_entry(n) == entry);
    assert(after.pmp_grants(n) == perm & PMP_ALL_PERM);
    assert(after.pmp_entry(n) & crate::opensbi::PMP_A == r.addrmode);
    lemma_page_granular(r.addr);
    lemma_page_granular(r.size);
    if r.addr == 0 && r.size == u64::MAX {
        lemma_all_ones_matches(u64::MAX, a);
        if r.is_napot() {
            assert(after.pmp_matches(n, a));
        } else {
            // a top-of-range region over all memory
            assert(r.pmpaddr_val() == u64::MAX);
            assert((a >> 2) < u64::MAX) by (bit_vector);
            assert(after.pmp_matches(n, a));
        }
    } else if r.is_napot() {
        assert(r.size >= 8);
        lemma_napot_decode(r.addr, r.size, a);
        assert(after.pmp_matches(n, a) == napot_matches(r.pmpaddr_val(), a));
        assert(after.pmp_matches(n, a) <==> r.contains(a as int));
    } else {
        let end = (r.addr + r.size) as u64;
        lemma_page_is_word_aligned(r.addr);
        lemma_all_ones_matches(u64::MAX, a);
        assert(r.pmpaddr_val() == end >> 2);
        if r.size != u64::MAX {
            assert(end % 4096 == 0);
            lemma_page_granular(end);
            lemma_page_is_word_aligned(end);
            lemma_tor_decode(r.addr, end, a);
        } else {
            assert(r.addr == 0);
        }
        assert(after.pmp_matches(n, a) <==> r.contains(a as int));
    }
}


/// Once the entries of a valid region are cleared, its own entry is off: it
/// matches no address and grants nothing.
pub proof fn lemma_unset_entry_matches_nothing(pmp: pmp_table, hart: hart_state, rid: int, a: u64)
    requires
        pmp.wf(),
        pmp.valid(rid),
    ensures
        !pmp.hart_after_unset(hart, rid).pmp_matches(pmp.regions[rid].reg_idx as int, a),
        pmp.hart_after_unset(hart, rid).pmp_grants(pmp.regions[rid].reg_idx as int) == 0,
{
    broadcast use vstd::array::group_array_axioms;

    let r = pmp.regions[rid];
    assert(r.wf());
    let n = r.reg_idx as int;
    let own = hart.with_pmp_entry(n, 0, 0);
    let after = pmp.hart_after_unset(hart, rid);
    lemma_mode_bits(0x18, 0);
    assert(0u8 & 7 == 0) by (bit_vector);
    lemma_cfg_bits(hart.pmpcfg[0], n as u64, n as u64, 0);
    assert(pmp_cfg_group(n) == 0 && n % 8 == n);
    assert(own.pmpcfg[0] == cfg_with_entry(hart.pmpcfg[0], n, 0));
    assert(own.pmp_entry(n) == 0);
    if r.needs_two_entries() {
        lemma_cfg_bits(own.pmpcfg[0], (n - 1) as u64, n as u64, 0);
        assert(pmp_cfg_group(n - 1) == 0 && (n - 1) % 8 == n - 1);
        assert(after.pmpcfg[0] == cfg_with_entry(own.pmpcfg[0], n - 1, 0));
    } else {
        assert(after == own);
    }
    assert(after.pmp_entry(n) == 0);
}

} // verus!
