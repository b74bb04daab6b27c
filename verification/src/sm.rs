//! The monitor as a whole: its state, its memory regions, its keys.
use vstd::prelude::*;
use crate::cpu::cpu_state;
use crate::crypt::hkdf_sha3::hkdf_byte;
use crate::crypto::kdf;
use crate::enclave::{ENCL_MAX, enclave, enclave_init_metadata, ENCLAVE_REGIONS_MAX, enclave_state};
use crate::error_code::{SBI_ERR_SM_ENCLAVE_SUCCESS, SBI_ERR_SM_PMP_SUCCESS};
use crate::machine::{hart_state, le_word, machine, word_from_le};
use crate::platform::{platform_init_global, platform_init_global_once};
use crate::pmp::{
    hart_pmp_cleared,
    lemma_after_init,
    PMP_ALL_PERM,
    pmp_init,
    PMP_N_REG,
    PMP_NO_PERM,
    pmp_priority,
    pmp_region_init_atomic,
    pmp_set_keystone,
    pmp_table,
};

verus! {

pub const SMM_BASE: u64 = 0x80000000;

pub const SMM_SIZE: u64 = 0x200000;

/* 0-1999 are not used (deprecated) */
pub const FID_RANGE_DEPRECATED: u64 = 1999;
/* 2000-2999 are called by host */
pub const SBI_SM_CREATE_ENCLAVE: u64 = 2001;
pub const SBI_SM_DESTROY_ENCLAVE: u64 = 2002;
pub const SBI_SM_RUN_ENCLAVE: u64 = 2003;
pub const SBI_SM_RESUME_ENCLAVE: u64 = 2005;
pub const FID_RANGE_HOST: u64 = 2999;
/* 3000-3999 are called by enclave */
pub const SBI_SM_RANDOM: u64 = 3001;
pub const SBI_SM_ATTEST_ENCLAVE: u64 = 3002;
pub const SBI_SM_GET_SEALING_KEY: u64 = 3003;
pub const SBI_SM_STOP_ENCLAVE: u64 = 3004;
pub const SBI_SM_EXIT_ENCLAVE: u64 = 3006;
pub const FID_RANGE_ENCLAVE: u64 = 3999;
/* 4000-4999 are experimental */
pub const SBI_SM_CALL_PLUGIN: u64 = 4000;
pub const FID_RANGE_CUSTOM: u64 = 4999;

/// A range of physical memory.
#[derive(Clone, Copy, PartialEq, Eq, Structural, Debug)]
pub struct keystone_sbi_pregion {
    pub paddr: u64,
    pub size: u64,
}

/// Where the parts of an enclave lie in physical memory.
#[derive(Clone, Copy, PartialEq, Eq, Structural, Debug)]
pub struct runtime_pa_params {
    pub dram_base: u64,
    pub dram_size: u64,
    pub runtime_base: u64,
    pub user_base: u64,
    pub free_base: u64,
}

impl runtime_pa_params {
    pub fn new() -> (r: Self)
        ensures
            r == (runtime_pa_params {
                dram_base: 0,
                dram_size: 0,
                runtime_base: 0,
                user_base: 0,
                free_base: 0,
            }),
    {
        runtime_pa_params { dram_base: 0, dram_size: 0, runtime_base: 0, user_base: 0, free_base: 0 }
    }
}

/// The virtual addresses that the creator of an enclave declares.
#[derive(Clone, Copy, PartialEq, Eq, Structural, Debug)]
pub struct runtime_va_params_t {
    pub runtime_entry: u64,
    pub user_entry: u64,
    pub untrusted_ptr: u64,
    pub untrusted_size: u64,
}

impl runtime_va_params_t {
    pub fn new() -> (r: Self)
        ensures
            r == (runtime_va_params_t {
                runtime_entry: 0,
                user_entry: 0,
                untrusted_ptr: 0,
                untrusted_size: 0,
            }),
    {
        runtime_va_params_t { runtime_entry: 0, user_entry: 0, untrusted_ptr: 0, untrusted_size: 0 }
    }
}

/// The arguments of a request to create an enclave.
#[derive(Clone, Copy, PartialEq, Eq, Structural, Debug)]
pub struct keystone_sbi_create {
    /// enclave private memory
    pub epm_region: keystone_sbi_pregion,
    /// untrusted shared pages
    pub utm_region: keystone_sbi_pregion,
    pub runtime_paddr: u64,
    pub user_paddr: u64,
    pub free_paddr: u64,
    pub params: runtime_va_params_t,
    /// Where the host wants the new id written.
    pub eid_pptr: u64,
}

/// The measurement of the monitor and the keys it holds, as the root of
/// trust handed them over.
#[derive(Clone, Copy, PartialEq, Eq, Debug)]
pub struct sm_keys {
    pub sm_hash: [u8; 64],
    pub sm_signature: [u8; 64],
    pub sm_public_key: [u8; 32],
    pub sm_private_key: [u8; 64],
    pub dev_public_key: [u8; 32],
}

impl sm_keys {
    /// Keys that are all zero.
    pub fn new() -> (r: Self)
        ensures
            forall|i: int| 0 <= i < 64 ==> r.sm_hash[i] == 0 && r.sm_signature[i] == 0
                && r.sm_private_key[i] == 0,
            forall|i: int| 0 <= i < 32 ==> r.sm_public_key[i] == 0 && r.dev_public_key[i] == 0,
    {
        sm_keys {
            sm_hash: [0; 64],
            sm_signature: [0; 64],
            sm_public_key: [0; 32],
            sm_private_key: [0; 64],
            dev_public_key: [0; 32],
        }
    }
}

/// Everything the monitor keeps: the region allocator, the enclave table,
/// what each hart runs, the keys, and the regions of the monitor and of the
/// host.
#[derive(Clone, Copy, PartialEq, Eq, Debug)]
pub struct security_monitor {
    pub pmp: pmp_table,
    pub enclaves: [enclave; 16],
    pub cpus: [cpu_state; 16],
    pub keys: sm_keys,
    pub sm_init_done: i32,
    pub sm_region_id: i32,
    pub os_region_id: i32,
}

impl security_monitor {
    /// A monitor before start-up: no region, every slot of the enclave
    /// table invalid, every hart running the host, keys all zero.
    pub fn new() -> (r: Self)
        ensures
            r.wf(),
            r.pmp.reg_bitmap == 0 && r.pmp.region_def_bitmap == 0,
            forall|i: int| 0 <= i < 16 ==> r.pmp.regions[i] == crate::pmp::empty_region(),
            forall|eid: int| 0 <= eid < ENCL_MAX ==> !r.enclave_exists(eid),
            forall|eid: int|
                0 <= eid < ENCL_MAX ==> {
                    let e = #[trigger] r.enclaves[eid];
                    &&& e.eid == 0 && e.encl_satp == 0 && e.n_thread == 0
                    &&& e.state == enclave_state::INVALID
                    &&& e.params == (runtime_va_params_t {
                        runtime_entry: 0,
                        user_entry: 0,
                        untrusted_ptr: 0,
                        untrusted_size: 0,
                    })
                    &&& e.pa_params == (runtime_pa_params {
                        dram_base: 0,
                        dram_size: 0,
                        runtime_base: 0,
                        user_base: 0,
                        free_base: 0,
                    })
                    &&& forall|i: int| 0 <= i < 64 ==> e.hash[i] == 0 && e.sign[i] == 0
                    &&& forall|i: int| 0 <= i < 8 ==> e.regions[i].pmp_rid == 0
                },
            forall|i: int|
                0 <= i < 64 ==> r.keys.sm_hash[i] == 0 && r.keys.sm_signature[i] == 0
                    && r.keys.sm_private_key[i] == 0,
            forall|i: int|
                0 <= i < 32 ==> r.keys.sm_public_key[i] == 0 && r.keys.dev_public_key[i] == 0,
            forall|eid: int, i: int|
                0 <= eid < ENCL_MAX && 0 <= i < ENCLAVE_REGIONS_MAX ==> (#[trigger] r.enclaves[eid].regions[i]).region_type
                    == crate::enclave::enclave_region_type::REGION_INVALID,
            forall|h: int| 0 <= h < 16 ==> r.cpus[h] == (cpu_state { is_enclave: 0, eid: 0 }),
            r.sm_init_done == 0,
            r.sm_region_id == 0,
            r.os_region_id == 0,
    {
        let mut r = security_monitor {
            pmp: pmp_table::new(),
            enclaves: [enclave::new(); 16],
            cpus: [cpu_state::new(); 16],
            keys: sm_keys::new(),
            sm_init_done: 0,
            sm_region_id: 0,
            os_region_id: 0,
        };
        let ghost before = r;
        enclave_init_metadata(&mut r);
        proof {
            crate::enclave::lemma_metadata_cleared(before, ENCL_MAX as nat);
            assert forall|eid: int| 0 <= eid < ENCL_MAX implies (forall|i: int|
                0 <= i < 8 ==> (#[trigger] r.enclaves[eid]).regions[i].pmp_rid == 0) by {
                crate::enclave::lemma_regions_unused(before.enclaves[eid].regions, 8);
            }
        }
        r
    }
}

/// Programs the region of the host on one hart to grant `perm`.
pub fn osm_pmp_set(sm: &security_monitor, hart: &mut hart_state, perm: u8) -> (r: i32)
    requires
        sm.pmp.wf(),
    ensures
        r == if sm.pmp.valid(sm.os_region_id as int) {
            SBI_ERR_SM_PMP_SUCCESS
        } else {
            crate::error_code::SBI_ERR_SM_PMP_REGION_INVALID
        },
        *final(hart) == sm.pmp.hart_after_set(*old(hart), sm.os_region_id as int, perm),
{
    /* in case of OSM, PMP cfg is exactly the opposite.*/
    pmp_set_keystone(&sm.pmp, hart, sm.os_region_id, perm)
}

/// Creates the region of the monitor's own memory, which takes the top
/// register and forbids overlap. Returns its id, or -1 if it cannot be created.
pub fn smm_init(pmp: &mut pmp_table) -> (r: i32)
    requires
        old(pmp).wf(),
    ensures
        final(pmp).wf(),
        old(pmp).init_status(SMM_BASE, SMM_SIZE, pmp_priority::PMP_PRI_TOP, 0)
            == SBI_ERR_SM_PMP_SUCCESS ==> r == old(pmp).free_region() && *final(pmp) == old(pmp).after_init(SMM_BASE, SMM_SIZE, pmp_priority::PMP_PRI_TOP, 0),
        old(pmp).init_status(SMM_BASE, SMM_SIZE, pmp_priority::PMP_PRI_TOP, 0)
            != SBI_ERR_SM_PMP_SUCCESS ==> r == -1 && *final(pmp) == *old(pmp),
{
    let mut region: i32 = -1;
    let ret: i32 = pmp_region_init_atomic(
        pmp,
        SMM_BASE,
        SMM_SIZE,
        pmp_priority::PMP_PRI_TOP,
        &mut region,
        0,
    );
    if ret != 0 {
        return -1;
    }
    region
}

/// Creates the region of the host, which spans all of memory, takes the
/// bottom register and allows overlap. Returns its id, or -1 if it cannot
/// be created.
pub fn osm_init(pmp: &mut pmp_table) -> (r: i32)
    requires
        old(pmp).wf(),
    ensures
        final(pmp).wf(),
        old(pmp).init_status(0, u64::MAX, pmp_priority::PMP_PRI_BOTTOM, 1)
            == SBI_ERR_SM_PMP_SUCCESS ==> r == old(pmp).free_region() && *final(pmp) == old(pmp).after_init(0, u64::MAX, pmp_priority::PMP_PRI_BOTTOM, 1),
        old(pmp).init_status(0, u64::MAX, pmp_priority::PMP_PRI_BOTTOM, 1)
            != SBI_ERR_SM_PMP_SUCCESS ==> r == -1 && *final(pmp) == *old(pmp),
{
    let mut region: i32 = -1;
    let ret: i32 = pmp_region_init_atomic(
        pmp,
        0,
        u64::MAX,
        pmp_priority::PMP_PRI_BOTTOM,
        &mut region,
        1,
    );
    if ret != 0 {
        return -1;
    }
    region
}

/// What a sealing key is bound to: the measurement of the enclave, then
/// the first `key_ident_size` bytes of the identifier that the enclave chose.
pub open spec fn sealing_info(enclave_hash: Seq<u8>, key_ident: Seq<u8>, key_ident_size: int) -> Seq<u8> {
    enclave_hash + key_ident.take(key_ident_size)
}

/// Derives a sealing key into `key` from the monitor's private key, bound
/// to `enclave_hash` and to the identifier. No salt is used, since the
/// monitor has no source of entropy. Fails with -1, leaving `key` as it
/// was, if `key` asks for more than 255 blocks.
pub fn sm_derive_sealing_key(
    keys: &sm_keys,
    key: &mut [u8],
    key_ident: &[u8],
    key_ident_size: usize,
    enclave_hash: &[u8],
) -> (r: i32)
    requires
        key_ident_size <= key_ident@.len(),
    ensures
        r == if old(key)@.len() > crate::crypt::hkdf_sha3::HKDF_MAX_LEN { -1i32 } else { 0 },
        final(key)@.len() == old(key)@.len(),
        r != 0 ==> final(key)@ == old(key)@,
        r == 0 ==> forall|k: int|
            0 <= k < old(key)@.len() ==> final(key)@[k] == hkdf_byte(
                Seq::empty(),
                keys.sm_private_key@,
                sealing_info(enclave_hash@, key_ident@, key_ident_size as int),
                k,
            ),
{
    let mut info: Vec<u8> = Vec::new();
    info.extend_from_slice(enclave_hash);
    let ident = vstd::slice::slice_subrange(key_ident, 0, key_ident_size);
    info.extend_from_slice(ident);
    assert(info@ =~= sealing_info(enclave_hash@, key_ident@, key_ident_size as int));
    let salt: [u8; 0] = [];
    assert(salt@ =~= Seq::<u8>::empty());
    /*
     * The key is derived without a salt because we have no entropy source
     * available to generate the salt.
     */
    kdf(&salt, &keys.sm_private_key, info.as_slice(), key)
}

/// Takes over the measurement and the keys that the root of trust prepared.
pub fn sm_copy_key(sm: &mut security_monitor, boot: &sm_keys)
    ensures
        *final(sm) == (security_monitor { keys: *boot, ..*old(sm) }),
{
    sm.keys = *boot;
}

/// How the start-up of the monitor on one hart ended.
#[derive(Clone, Copy, PartialEq, Eq, Structural, Debug)]
pub enum sm_init_outcome {
    /// The monitor runs on this hart.
    Ready,
    /// The first hart has not finished yet: try again.
    Wait,
    /// A region or the platform could not be set up: the hart must halt.
    Halt,
}

/// The monitor after the part of the start-up that only the first hart
/// does, if it succeeds: the monitor's region and the host's region
/// created, the keys taken over, and every slot of the enclave table invalid.
pub open spec fn cold_booted(sm: security_monitor, boot: sm_keys) -> security_monitor {
    let pmp1 = sm.pmp.after_init(SMM_BASE, SMM_SIZE, pmp_priority::PMP_PRI_TOP, 0);
    let pmp2 = pmp1.after_init(0, u64::MAX, pmp_priority::PMP_PRI_BOTTOM, 1);
    crate::enclave::metadata_cleared(
        security_monitor {
            pmp: pmp2,
            keys: boot,
            sm_region_id: sm.pmp.free_region() as i32,
            os_region_id: pmp1.free_region() as i32,
            ..sm
        },
        ENCL_MAX as nat,
    )
}

/// The monitor after a start-up of the first hart that fails: with the
/// id -1 for the region that could not be created, and with the monitor's
/// region kept if it was the host's region that failed.
pub open spec fn cold_boot_failed(sm: security_monitor) -> security_monitor {
    if sm.pmp.init_status(SMM_BASE, SMM_SIZE, pmp_priority::PMP_PRI_TOP, 0)
        != SBI_ERR_SM_PMP_SUCCESS {
        security_monitor { sm_region_id: -1i32, ..sm }
    } else {
        security_monitor {
            pmp: sm.pmp.after_init(SMM_BASE, SMM_SIZE, pmp_priority::PMP_PRI_TOP, 0),
            sm_region_id: sm.pmp.free_region() as i32,
            os_region_id: -1i32,
            ..sm
        }
    }
}

/// Whether the first hart can set up its two regions.
pub open spec fn cold_boot_possible(sm: security_monitor) -> bool {
    let pmp1 = sm.pmp.after_init(SMM_BASE, SMM_SIZE, pmp_priority::PMP_PRI_TOP, 0);
    &&& sm.pmp.init_status(SMM_BASE, SMM_SIZE, pmp_priority::PMP_PRI_TOP, 0)
        == SBI_ERR_SM_PMP_SUCCESS
    &&& pmp1.init_status(0, u64::MAX, pmp_priority::PMP_PRI_BOTTOM, 1) == SBI_ERR_SM_PMP_SUCCESS
}

/// The executing hart after its own part of the start-up: the entries that
/// the allocator hands out cleared, the monitor's region closed, the
/// host's region open.
pub open spec fn hart_booted(sm: security_monitor, hart: hart_state) -> hart_state {
    sm.pmp.hart_after_set(
        sm.pmp.hart_after_set(
            hart_pmp_cleared(hart, PMP_N_REG as nat),
            sm.sm_region_id as int,
            PMP_NO_PERM,
        ),
        sm.os_region_id as int,
        PMP_ALL_PERM,
    )
}

/// Starts the monitor on the executing hart.
///
/// On the first hart (`cold_boot`) the monitor's region and the host's
/// region are created, the keys in `boot` are taken over, and the enclave
/// table is cleared; if a region cannot be created the outcome is `Halt`
/// and the hart's registers are untouched. On any other hart the outcome is
/// `Wait`, with nothing changed, until the first hart is done. Then the
/// hart clears its protection entries, closes the monitor's region and
/// opens the host's region, and the outcome is `Ready`.
pub fn sm_init(sm: &mut security_monitor, m: &mut machine, cold_boot: bool, boot: &sm_keys) -> (r:
    sm_init_outcome)
    requires
        old(sm).wf(),
        old(m).wf(),
    ensures
        final(sm).pmp.wf(),
        cold_boot && !cold_boot_possible(*old(sm)) ==> r == sm_init_outcome::Halt && *final(m)
            == *old(m) && *final(sm) == cold_boot_failed(*old(sm)),
        !cold_boot && old(sm).sm_init_done == 0 ==> r == sm_init_outcome::Wait && *final(sm)
            == *old(sm) && *final(m) == *old(m),
        !cold_boot && old(sm).sm_init_done != 0 ==> r == sm_init_outcome::Ready && *final(sm)
            == *old(sm),
        cold_boot && cold_boot_possible(*old(sm)) ==> r == sm_init_outcome::Ready && *final(sm)
            == (security_monitor { sm_init_done: 1, ..cold_booted(*old(sm), *boot) }),
        r == sm_init_outcome::Ready ==> *final(m) == (machine {
            harts: vstd::array::spec_array_update(
                old(m).harts,
                old(m).hartid as int,
                hart_booted(*final(sm), old(m).harts[old(m).hartid as int]),
            ),
            ..*old(m)
        }),
{
    broadcast use vstd::array::group_array_axioms;

    // initialize SMM
    if cold_boot {
        /* only the cold-booting hart will execute these */
        sm.sm_region_id = smm_init(&mut sm.pmp);
        if sm.sm_region_id < 0 {
            return sm_init_outcome::Halt;
        }
        proof {
            lemma_after_init(old(sm).pmp, SMM_BASE, SMM_SIZE, pmp_priority::PMP_PRI_TOP, 0);
        }
        sm.os_region_id = osm_init(&mut sm.pmp);
        if sm.os_region_id < 0 {
            return sm_init_outcome::Halt;
        }
        proof {
            lemma_after_init(
                old(sm).pmp.after_init(SMM_BASE, SMM_SIZE, pmp_priority::PMP_PRI_TOP, 0),
                0,
                u64::MAX,
                pmp_priority::PMP_PRI_BOTTOM,
                1,
            );
        }
        if platform_init_global_once() != SBI_ERR_SM_ENCLAVE_SUCCESS {
            return sm_init_outcome::Halt;
        }
        // Copy the keypair from the root of trust
        sm_copy_key(sm, boot);

        // Init the enclave metadata
        enclave_init_metadata(sm);

        sm.sm_init_done = 1;
    }
    /* wait until cold-boot hart finishes */

    if sm.sm_init_done == 0 {
        return sm_init_outcome::Wait;
    }
    /* below are executed by all harts */

    let h = m.hartid;
    pmp_init(&mut m.harts[h]);
    pmp_set_keystone(&sm.pmp, &mut m.harts[h], sm.sm_region_id, PMP_NO_PERM);
    pmp_set_keystone(&sm.pmp, &mut m.harts[h], sm.os_region_id, PMP_ALL_PERM);

    /* Fire platform specific global init */
    if platform_init_global() != SBI_ERR_SM_ENCLAVE_SUCCESS {
        return sm_init_outcome::Halt;
    }
    assert(m.harts =~= vstd::array::spec_array_update(
        old(m).harts,
        old(m).hartid as int,
        hart_booted(*sm, old(m).harts[old(m).hartid as int]),
    ));
    sm_init_outcome::Ready
}

/// Number of bytes of the arguments of a request to create an enclave, as
/// they lie in the memory of the host: twelve words.
pub const CREATE_ARGS_BYTES: usize = 96;

/// Word `i` of `bytes`, little-endian.
pub open spec fn word_at(bytes: Seq<u8>, i: int) -> u64 {
    le_word(bytes.subrange(8 * i, 8 * i + 8))
}

/// The arguments that the first 96 bytes of `bytes` hold: the private
/// region (base, size), the shared region (base, size), the physical
/// bases of runtime, user program and free memory, the declared virtual
/// addresses (runtime entry, user entry, shared pointer, shared size), and
/// the place for the id; each a little-endian word.
pub open spec fn create_args_of(bytes: Seq<u8>) -> keystone_sbi_create {
    keystone_sbi_create {
        epm_region: keystone_sbi_pregion { paddr: word_at(bytes, 0), size: word_at(bytes, 1) },
        utm_region: keystone_sbi_pregion { paddr: word_at(bytes, 2), size: word_at(bytes, 3) },
        runtime_paddr: word_at(bytes, 4),
        user_paddr: word_at(bytes, 5),
        free_paddr: word_at(bytes, 6),
        params: runtime_va_params_t {
            runtime_entry: word_at(bytes, 7),
            user_entry: word_at(bytes, 8),
            untrusted_ptr: word_at(bytes, 9),
            untrusted_size: word_at(bytes, 10),
        },
        eid_pptr: word_at(bytes, 11),
    }
}

fn read_word(bytes: &[u8], i: usize) -> (r: u64)
    requires
        i < 12,
        8 * i + 8 <= bytes@.len(),
    ensures
        r == word_at(bytes@, i as int),
{
    let b: [u8; 8] = [
        bytes[8 * i],
        bytes[8 * i + 1],
        bytes[8 * i + 2],
        bytes[8 * i + 3],
        bytes[8 * i + 4],
        bytes[8 * i + 5],
        bytes[8 * i + 6],
        bytes[8 * i + 7],
    ];
    assert(b@ =~= bytes@.subrange(8 * i as int, 8 * i + 8));
    word_from_le(&b)
}

/// Reads the arguments of a request to create an enclave from the bytes
/// copied out of the host's memory; `None` if there are fewer than 96.
pub fn create_args_from_bytes(bytes: &[u8]) -> (r: Option<keystone_sbi_create>)
    ensures
        r == if bytes@.len() >= CREATE_ARGS_BYTES {
            Some(create_args_of(bytes@))
        } else {
            None
        },
{
    if bytes.len() < CREATE_ARGS_BYTES {
        return None;
    }
    Some(
        keystone_sbi_create {
            epm_region: keystone_sbi_pregion {
                paddr: read_word(bytes, 0),
                size: read_word(bytes, 1),
            },
            utm_region: keystone_sbi_pregion {
                paddr: read_word(bytes, 2),
                size: read_word(bytes, 3),
            },
            runtime_paddr: read_word(bytes, 4),
            user_paddr: read_word(bytes, 5),
            free_paddr: read_word(bytes, 6),
            params: runtime_va_params_t {
                runtime_entry: read_word(bytes, 7),
                user_entry: read_word(bytes, 8),
                untrusted_ptr: read_word(bytes, 9),
                untrusted_size: read_word(bytes, 10),
            },
            eid_pptr: read_word(bytes, 11),
        },
    )
}

} // verus!
