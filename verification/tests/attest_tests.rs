use keystone_sm::attest::validate_and_hash_enclave;
use keystone_sm::crypt::sha3::compute;
use keystone_sm::enclave::{enclave, enclave_region_type};
use keystone_sm::error_code::{SBI_ERR_SM_ENCLAVE_ILLEGAL_PTE, SBI_ERR_SM_ENCLAVE_SUCCESS};
use keystone_sm::machine::phys_mem;
use keystone_sm::pmp::{pmp_priority, pmp_region_init, pmp_table};

const EPM: u64 = 0x8010_0000;
const EPM_SIZE: u64 = 0x10_0000;
const UTM: u64 = 0x9000_0000;
const UTM_SIZE: u64 = 0x2000;
const RUNTIME: u64 = EPM + 0x10_000;
const USER: u64 = EPM + 0x20_000;
const FREE: u64 = EPM + 0x30_000;
const UT_PTR: u64 = 0xffff_ffff_8000_0000;

const V: u64 = 0x01;
const RWX: u64 = 0x0e;
const U: u64 = 0x10;

fn pte(pa: u64, flags: u64) -> u64 {
    ((pa >> 12) << 10) | flags
}

struct Fixture {
    pmp: pmp_table,
    mem: phys_mem,
    e: enclave,
}

fn fixture() -> Fixture {
    let mut pmp = pmp_table::new();
    let mut epm_rid = -1;
    let mut utm_rid = -1;
    assert_eq!(
        pmp_region_init(&mut pmp, EPM, EPM_SIZE, pmp_priority::PMP_PRI_ANY, &mut epm_rid, 0),
        0
    );
    assert_eq!(
        pmp_region_init(&mut pmp, UTM, UTM_SIZE, pmp_priority::PMP_PRI_BOTTOM, &mut utm_rid, 0),
        0
    );
    let mut mem = phys_mem::new();
    mem.add_bank(EPM, EPM_SIZE as usize);
    mem.add_bank(UTM, UTM_SIZE as usize);
    let mut e = enclave::new();
    e.regions[0].pmp_rid = epm_rid;
    e.regions[0].region_type = enclave_region_type::REGION_EPM;
    e.regions[1].pmp_rid = utm_rid;
    e.regions[1].region_type = enclave_region_type::REGION_UTM;
    e.encl_satp = (EPM >> 12) | (8 << 60);
    e.params.runtime_entry = 0xffff_ffff_c000_0000;
    e.params.user_entry = 0x1_0000;
    e.params.untrusted_ptr = UT_PTR;
    e.params.untrusted_size = UTM_SIZE;
    e.pa_params.dram_base = EPM;
    e.pa_params.dram_size = EPM_SIZE;
    e.pa_params.runtime_base = RUNTIME;
    e.pa_params.user_base = USER;
    e.pa_params.free_base = FREE;
    Fixture { pmp, mem, e }
}

/// Maps `va` to the page at `pa`, allocating tables from `next_table` on.
fn map(mem: &mut phys_mem, next_table: &mut u64, va: u64, pa: u64, flags: u64) {
    let idx = [(va >> 30) & 0x1ff, (va >> 21) & 0x1ff, (va >> 12) & 0x1ff];
    let mut table = EPM;
    for level in 0..2 {
        let slot = table + 8 * idx[level];
        let entry = mem.read_u64(slot);
        if entry == 0 {
            let t = *next_table;
            *next_table += 0x1000;
            mem.write_u64(slot, pte(t, V));
            table = t;
        } else {
            table = (entry >> 10) << 12;
        }
    }
    mem.write_u64(table + 8 * idx[2], pte(pa, flags));
}

fn fill_page(mem: &mut phys_mem, pa: u64, seed: u8) {
    for i in 0..4096u64 {
        mem.write_u8(pa + i, seed.wrapping_add((i % 253) as u8));
    }
}

fn page(mem: &phys_mem, pa: u64) -> Vec<u8> {
    mem.read_range(pa, 4096)
}

fn params_bytes(e: &enclave) -> Vec<u8> {
    let mut out = Vec::new();
    out.extend_from_slice(&e.params.runtime_entry.to_le_bytes());
    out.extend_from_slice(&e.params.user_entry.to_le_bytes());
    out.extend_from_slice(&e.params.untrusted_ptr.to_le_bytes());
    out.extend_from_slice(&e.params.untrusted_size.to_le_bytes());
    out
}

fn sha3_512(msg: &[u8]) -> [u8; 64] {
    let mut md = [0u8; 64];
    compute(msg, &mut md);
    md
}

fn measure(f: &mut Fixture) -> usize {
    validate_and_hash_enclave(&mut f.e, &f.pmp, &f.mem)
}

#[test]
fn empty_page_table_measures_the_declared_addresses_alone() {
    let mut f = fixture();
    assert_eq!(measure(&mut f), SBI_ERR_SM_ENCLAVE_SUCCESS);
    assert_eq!(f.e.hash, sha3_512(&params_bytes(&f.e)));
}

#[test]
fn measurement_hashes_each_run_once_and_every_page() {
    let mut f = fixture();
    let mut next = EPM + 0x1000;
    fill_page(&mut f.mem, RUNTIME, 1);
    fill_page(&mut f.mem, RUNTIME + 0x1000, 2);
    fill_page(&mut f.mem, USER, 3);
    fill_page(&mut f.mem, UTM, 4);
    // a run of two runtime pages, a gap, one user page, and a shared page far away
    map(&mut f.mem, &mut next, 0x4000_0000, RUNTIME, V | RWX);
    map(&mut f.mem, &mut next, 0x4000_1000, RUNTIME + 0x1000, V | RWX);
    map(&mut f.mem, &mut next, 0x4000_3000, USER, V | RWX | U);
    map(&mut f.mem, &mut next, UT_PTR, UTM, V | RWX);
    let before = f.e;
    assert_eq!(measure(&mut f), SBI_ERR_SM_ENCLAVE_SUCCESS);

    let mut msg = params_bytes(&f.e);
    msg.extend_from_slice(&0x4000_0000u64.to_le_bytes());
    msg.extend_from_slice(&page(&f.mem, RUNTIME));
    msg.extend_from_slice(&page(&f.mem, RUNTIME + 0x1000));
    msg.extend_from_slice(&0x4000_3000u64.to_le_bytes());
    msg.extend_from_slice(&page(&f.mem, USER));
    msg.extend_from_slice(&UT_PTR.to_le_bytes());
    msg.extend_from_slice(&page(&f.mem, UTM));
    assert_eq!(f.e.hash, sha3_512(&msg));

    let mut want = before;
    want.hash = f.e.hash;
    assert_eq!(f.e, want);
}

#[test]
fn a_run_goes_on_across_the_end_of_a_table() {
    let mut f = fixture();
    let mut next = EPM + 0x1000;
    // last page of one leaf table and first page of the next
    map(&mut f.mem, &mut next, 0x1f_f000, RUNTIME, V | RWX);
    map(&mut f.mem, &mut next, 0x20_0000, RUNTIME + 0x1000, V | RWX);
    assert_eq!(measure(&mut f), SBI_ERR_SM_ENCLAVE_SUCCESS);
    let mut msg = params_bytes(&f.e);
    msg.extend_from_slice(&0x1f_f000u64.to_le_bytes());
    msg.extend_from_slice(&page(&f.mem, RUNTIME));
    msg.extend_from_slice(&page(&f.mem, RUNTIME + 0x1000));
    assert_eq!(f.e.hash, sha3_512(&msg));
}

#[test]
fn top_half_addresses_are_sign_extended() {
    let mut f = fixture();
    let mut next = EPM + 0x1000;
    map(&mut f.mem, &mut next, 0xffff_ffff_ffff_f000, RUNTIME, V | RWX);
    assert_eq!(measure(&mut f), SBI_ERR_SM_ENCLAVE_SUCCESS);
    let mut msg = params_bytes(&f.e);
    msg.extend_from_slice(&0xffff_ffff_ffff_f000u64.to_le_bytes());
    msg.extend_from_slice(&page(&f.mem, RUNTIME));
    assert_eq!(f.e.hash, sha3_512(&msg));

    // the same indices below the top bit give a low address
    let mut g = fixture();
    let mut next = EPM + 0x1000;
    map(&mut g.mem, &mut next, 0x3f_ffff_f000, RUNTIME, V | RWX);
    assert_eq!(measure(&mut g), SBI_ERR_SM_ENCLAVE_SUCCESS);
    let mut msg = params_bytes(&g.e);
    msg.extend_from_slice(&0x3f_ffff_f000u64.to_le_bytes());
    msg.extend_from_slice(&page(&g.mem, RUNTIME));
    assert_eq!(g.e.hash, sha3_512(&msg));
    assert_ne!(f.e.hash, g.e.hash);
}

#[test]
fn measurement_does_not_depend_on_where_the_tables_lie() {
    let mut a = fixture();
    let mut next = EPM + 0x1000;
    fill_page(&mut a.mem, RUNTIME, 9);
    fill_page(&mut a.mem, USER, 8);
    map(&mut a.mem, &mut next, 0x1000, RUNTIME, V | RWX);
    map(&mut a.mem, &mut next, 0x4000_0000, USER, V | RWX | U);

    let mut b = fixture();
    // tables further up, handed out in the other order, and other flag bits
    let mut next = EPM + 0x8000;
    fill_page(&mut b.mem, RUNTIME, 9);
    fill_page(&mut b.mem, USER, 8);
    map(&mut b.mem, &mut next, 0x4000_0000, USER, V | U | 0x02);
    map(&mut b.mem, &mut next, 0x1000, RUNTIME, V | RWX | 0xc0);

    assert_ne!(a.mem, b.mem);
    assert_eq!(measure(&mut a), SBI_ERR_SM_ENCLAVE_SUCCESS);
    assert_eq!(measure(&mut b), SBI_ERR_SM_ENCLAVE_SUCCESS);
    assert_eq!(a.e.hash, b.e.hash);

    // other bytes in a page give another measurement
    let mut c = fixture();
    let mut next = EPM + 0x1000;
    fill_page(&mut c.mem, RUNTIME, 9);
    fill_page(&mut c.mem, USER, 7);
    map(&mut c.mem, &mut next, 0x1000, RUNTIME, V | RWX);
    map(&mut c.mem, &mut next, 0x4000_0000, USER, V | RWX | U);
    assert_eq!(measure(&mut c), SBI_ERR_SM_ENCLAVE_SUCCESS);
    assert_ne!(a.e.hash, c.e.hash);
}

fn assert_illegal(mut f: Fixture) {
    let before = f.e;
    assert_eq!(measure(&mut f), SBI_ERR_SM_ENCLAVE_ILLEGAL_PTE);
    assert_eq!(f.e, before);
}

#[test]
fn two_addresses_of_one_user_page_are_refused() {
    let mut f = fixture();
    let mut next = EPM + 0x1000;
    map(&mut f.mem, &mut next, 0x1000, USER, V | RWX | U);
    map(&mut f.mem, &mut next, 0x2000, USER, V | RWX | U);
    assert_illegal(f);
}

#[test]
fn two_addresses_of_one_runtime_page_are_refused() {
    let mut f = fixture();
    let mut next = EPM + 0x1000;
    map(&mut f.mem, &mut next, 0x1000, RUNTIME, V | RWX);
    map(&mut f.mem, &mut next, 0x4000_0000, RUNTIME, V | RWX);
    assert_illegal(f);
}

#[test]
fn pages_that_do_not_rise_with_the_addresses_are_refused() {
    let mut f = fixture();
    let mut next = EPM + 0x1000;
    map(&mut f.mem, &mut next, 0x1000, USER + 0x1000, V | RWX | U);
    map(&mut f.mem, &mut next, 0x2000, USER, V | RWX | U);
    assert_illegal(f);

    // runtime and user rise each on its own
    let mut g = fixture();
    let mut next = EPM + 0x1000;
    map(&mut g.mem, &mut next, 0x1000, USER, V | RWX | U);
    map(&mut g.mem, &mut next, 0x2000, RUNTIME, V | RWX);
    map(&mut g.mem, &mut next, 0x3000, USER + 0x1000, V | RWX | U);
    map(&mut g.mem, &mut next, 0x4000, RUNTIME + 0x1000, V | RWX);
    assert_eq!(measure(&mut g), SBI_ERR_SM_ENCLAVE_SUCCESS);
}

#[test]
fn shared_pages_may_be_mapped_twice_and_in_any_order() {
    let mut f = fixture();
    let mut next = EPM + 0x1000;
    map(&mut f.mem, &mut next, UT_PTR, UTM + 0x1000, V | RWX);
    map(&mut f.mem, &mut next, UT_PTR + 0x1000, UTM, V | RWX);
    map(&mut f.mem, &mut next, 0x7000, UTM, V | RWX);
    assert_eq!(measure(&mut f), SBI_ERR_SM_ENCLAVE_SUCCESS);
}

#[test]
fn a_user_page_without_the_user_bit_is_refused() {
    let mut f = fixture();
    let mut next = EPM + 0x1000;
    map(&mut f.mem, &mut next, 0x1000, USER, V | RWX);
    assert_illegal(f);
}

#[test]
fn a_page_outside_both_regions_is_refused() {
    for pa in [EPM - 0x1000, EPM + EPM_SIZE, UTM + UTM_SIZE, 0x1000, UTM - 0x1000] {
        let mut f = fixture();
        let mut next = EPM + 0x1000;
        map(&mut f.mem, &mut next, 0x1000, pa, V | RWX | U);
        assert_illegal(f);
    }
}

#[test]
fn a_private_page_outside_runtime_and_user_is_refused() {
    for pa in [EPM, RUNTIME - 0x1000, FREE, EPM + EPM_SIZE - 0x1000] {
        let mut f = fixture();
        let mut next = EPM + 0x1000;
        map(&mut f.mem, &mut next, 0x1000, pa, V | RWX | U);
        assert_illegal(f);
    }
    // the last page of the user part is fine
    let mut f = fixture();
    let mut next = EPM + 0x1000;
    map(&mut f.mem, &mut next, 0x1000, FREE - 0x1000, V | RWX | U);
    assert_eq!(measure(&mut f), SBI_ERR_SM_ENCLAVE_SUCCESS);
}

#[test]
fn a_table_in_the_shared_region_is_refused() {
    let mut f = fixture();
    // root entry points to a table in the shared region
    f.mem.write_u64(EPM + 8, pte(UTM, V));
    assert_illegal(f);
    let mut g = fixture();
    g.mem.write_u64(EPM, pte(EPM + 0x1000, V));
    g.mem.write_u64(EPM + 0x1000 + 16, pte(UTM + 0x1000, V));
    assert_illegal(g);
}

#[test]
fn an_address_of_the_shared_window_must_map_into_the_shared_region() {
    let mut f = fixture();
    let mut next = EPM + 0x1000;
    map(&mut f.mem, &mut next, UT_PTR + 0x1000, RUNTIME, V | RWX);
    assert_illegal(f);
    // just past the window it may
    let mut g = fixture();
    let mut next = EPM + 0x1000;
    map(&mut g.mem, &mut next, UT_PTR + UTM_SIZE, RUNTIME, V | RWX);
    assert_eq!(measure(&mut g), SBI_ERR_SM_ENCLAVE_SUCCESS);
}

#[test]
fn one_illegal_entry_late_in_the_walk_fails_the_whole() {
    let mut f = fixture();
    let mut next = EPM + 0x1000;
    map(&mut f.mem, &mut next, 0x1000, RUNTIME, V | RWX);
    map(&mut f.mem, &mut next, 0x2000, USER, V | RWX | U);
    map(&mut f.mem, &mut next, 0xffff_ffff_ffff_f000, 0x4000, V | RWX);
    assert_illegal(f);
}

#[test]
fn an_enclave_without_regions_has_no_legal_entry() {
    let mut f = fixture();
    f.e.regions[0].region_type = enclave_region_type::REGION_INVALID;
    f.mem.write_u64(EPM, pte(EPM + 0x1000, V));
    assert_illegal(f);
    // but an empty table is measured
    let mut g = fixture();
    g.e.regions[0].region_type = enclave_region_type::REGION_INVALID;
    g.e.regions[1].region_type = enclave_region_type::REGION_INVALID;
    assert_eq!(measure(&mut g), SBI_ERR_SM_ENCLAVE_SUCCESS);
}
