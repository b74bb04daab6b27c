//! A machine-mode security monitor for RISC-V enclaves, over an explicit model of
//! the harts and of physical memory.
//!
//! The monitor multiplexes the physical-memory-protection registers into logical
//! regions (`pmp`), keeps the table of enclaves and guards every step of their
//! life (`enclave`), and measures an enclave by walking its page tables
//! (`attest`). Everything the monitor would do to the hardware it does to a
//! `machine` value, so that each operation has a contract over plain data.
#![allow(non_camel_case_types)]
#![allow(non_snake_case)]
#![allow(non_upper_case_globals)]
#![allow(unused_imports)]
#![allow(unused_variables)]
#![allow(unused_parens)]

pub mod error_code;
pub mod page;
pub mod opensbi;
pub mod machine;
pub mod pmp;
pub mod ipi;
pub mod crypt;
pub mod crypto;
pub mod sbi_trap;
pub mod thread;
pub mod platform;
pub mod cpu;
pub mod sm;
pub mod enclave;
pub mod attest;
pub mod sm_sbi;
pub mod mprv;
pub mod sbi_trap_hack;
