//! Page and page-table-entry geometry of Sv39 paging.
use vstd::prelude::*;

verus! {

pub const RISCV_PGSHIFT: u64 = 12;
pub const RISCV_PGSIZE: u64 = 4096;

/* page table entry (PTE) fields */
pub const PTE_V: u64 = 0x001; /* Valid */
pub const PTE_R: u64 = 0x002; /* Read */
pub const PTE_W: u64 = 0x004; /* Write */
pub const PTE_X: u64 = 0x008; /* Execute */
pub const PTE_U: u64 = 0x010; /* User */
pub const PTE_G: u64 = 0x020; /* Global */
pub const PTE_A: u64 = 0x040; /* Accessed */
pub const PTE_D: u64 = 0x080; /* Dirty */
pub const PTE_SOFT: u64 = 0x300; /* Reserved for Software */

pub const RISCV_PGLEVEL_MASK: u64 = 0x1ff;
pub const RISCV_PGTABLE_HIGHEST_BIT: u64 = 0x100;
pub const RISCV_PGLEVEL_BITS: u64 = 9;

pub const PTE_PPN_SHIFT: u64 = 10;

pub const VA_BITS: u64 = 39;
pub const RISCV_PGLEVEL_TOP: u64 = 3;

/// Number of entries in one page table.
pub const PTES_PER_TABLE: u64 = 512;

} // verus!
