//! Copies between the monitor and the memory of the side that called it.
//! The hart copies a block, a word or a byte at a time with the caller's
//! own access rights; which of the three comes next is decided here.
use vstd::prelude::*;

verus! {

pub const LOG_REGBYTES: u64 = 3;

/// Bytes in a register.
pub const REGBYTES: u64 = 8;

/// Bytes in a block of eight registers.
pub const MPRV_BLOCK: u64 = 64;

/// What the hart copies in one step.
#[derive(Clone, Copy, PartialEq, Eq, Structural, Debug)]
pub enum copy_unit {
    /// Eight registers at once.
    Block,
    /// One register.
    Word,
    /// One byte.
    Byte,
}

impl copy_unit {
    /// The number of bytes of the unit.
    pub open spec fn bytes(&self) -> u64 {
        match self {
            copy_unit::Block => MPRV_BLOCK,
            copy_unit::Word => REGBYTES,
            copy_unit::Byte => 1,
        }
    }

    /// The number of bytes of the unit.
    pub fn size(&self) -> (r: u64)
        ensures
            r == self.bytes(),
    {
        match self {
            copy_unit::Block => MPRV_BLOCK,
            copy_unit::Word => REGBYTES,
            copy_unit::Byte => 1,
        }
    }
}

/// Whether a copy from `src` to `dst` can go register by register: both
/// addresses are multiples of the register size.
pub open spec fn copy_aligned(dst: u64, src: u64) -> bool {
    src % REGBYTES == 0 && dst % REGBYTES == 0
}

/// The unit of the next step of a copy of which `len` bytes are left,
/// or `None` if none is left. `aligned` tells whether the copy started at
/// addresses that are multiples of the register size: such a copy goes by
/// blocks while a block is left, then by words while a word is left; the
/// rest, and any other copy, goes by bytes.
pub open spec fn next_unit(aligned: bool, len: u64) -> Option<copy_unit> {
    if len == 0 {
        None
    } else if aligned && len >= MPRV_BLOCK {
        Some(copy_unit::Block)
    } else if aligned && len >= REGBYTES {
        Some(copy_unit::Word)
    } else {
        Some(copy_unit::Byte)
    }
}

/// Whether a copy from `src` to `dst` can go register by register.
pub fn copy_is_aligned(dst: u64, src: u64) -> (r: bool)
    ensures
        r == copy_aligned(dst, src),
{
    src % REGBYTES == 0 && dst % REGBYTES == 0
}

/// The unit of the next step of a copy of which `len` bytes are left.
pub fn copy_next_unit(aligned: bool, len: u64) -> (r: Option<copy_unit>)
    ensures
        r == next_unit(aligned, len),
        r matches Some(u) ==> u.bytes() <= len,
{
    if len == 0 {
        None
    } else if aligned && len >= MPRV_BLOCK {
        Some(copy_unit::Block)
    } else if aligned && len >= REGBYTES {
        Some(copy_unit::Word)
    } else {
        Some(copy_unit::Byte)
    }
}

} // verus!
