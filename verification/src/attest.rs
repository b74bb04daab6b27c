//! The measurement of an enclave: a walk through its page tables that checks
//! every mapping and hashes what is mapped.
use vstd::prelude::*;
use crate::crypt::sha3::{absorb, empty_sponge, lemma_absorb_concat, sha3};
use crate::crypto::{
    hash_ctx,
    hash_extend,
    hash_extend_page,
    hash_finalize,
    hash_init,
    hash_rate,
    MDSIZE,
};
use crate::enclave::{enclave, enclave_region_type};
use crate::error_code::{SBI_ERR_SM_ENCLAVE_ILLEGAL_PTE, SBI_ERR_SM_ENCLAVE_SUCCESS};
use crate::machine::{le_bytes, phys_mem, word_to_le};
use crate::page::{
    PTE_PPN_SHIFT,
    PTE_U,
    PTES_PER_TABLE,
    RISCV_PGLEVEL_BITS,
    RISCV_PGLEVEL_MASK,
    RISCV_PGLEVEL_TOP,
    RISCV_PGSHIFT,
    RISCV_PGSIZE,
    RISCV_PGTABLE_HIGHEST_BIT,
};
use crate::pmp::{pmp_region_get_addr, pmp_region_get_size, pmp_table};
use crate::sm::runtime_va_params_t;

verus! {

pub type pte_t = u64;

/// What a mapping is checked against: the physical ranges of the private and
/// of the shared region, the physical parts of the private region, and the
/// declared virtual window of the shared region.
#[derive(Clone, Copy, PartialEq, Eq, Structural, Debug)]
pub struct walk_env {
    pub epm_start: u64,
    pub epm_size: u64,
    pub utm_start: u64,
    pub utm_size: u64,
    pub runtime_base: u64,
    pub user_base: u64,
    pub free_base: u64,
    pub untrusted_ptr: u64,
    pub untrusted_size: u64,
}

impl walk_env {
    /// Whether `pa` lies in the private region.
    pub open spec fn in_epm(&self, pa: u64) -> bool {
        self.epm_start <= pa < self.epm_start + self.epm_size
    }

    /// Whether `pa` lies in the shared region.
    pub open spec fn in_utm(&self, pa: u64) -> bool {
        self.utm_start <= pa < self.utm_start + self.utm_size
    }

    /// Whether `pa` lies in the part of the private region that holds the runtime.
    pub open spec fn in_runtime(&self, pa: u64) -> bool {
        self.runtime_base <= pa < self.user_base
    }

    /// Whether `pa` lies in the part of the private region that holds the user program.
    pub open spec fn in_user(&self, pa: u64) -> bool {
        self.user_base <= pa < self.free_base
    }

    /// Whether `va` lies in the declared virtual window of the shared region.
    pub open spec fn va_in_utm(&self, va: u64) -> bool {
        self.untrusted_ptr <= va < self.untrusted_ptr + self.untrusted_size
    }
}

/// What a walk has gathered: the bytes to hash, whether the last entry seen
/// was a leaf, and the highest physical address mapped so far in each part
/// of the private region.
pub struct walk_state {
    pub stream: Seq<u8>,
    pub contiguous: bool,
    pub runtime_max: u64,
    pub user_max: u64,
}

/// The physical address that a page table entry points to.
pub open spec fn pte_phys_addr(pte: u64) -> u64 {
    (pte >> PTE_PPN_SHIFT) << RISCV_PGSHIFT
}

/// The virtual page number of entry `i` of a table of level `level` that is
/// reached under the page number `vaddr`. At the top level the highest index
/// bit is extended through the upper bits.
pub open spec fn entry_vpn(level: u64, vaddr: u64, i: u64) -> u64 {
    if level == RISCV_PGLEVEL_TOP && (i & RISCV_PGTABLE_HIGHEST_BIT) != 0 {
        (u64::MAX << RISCV_PGLEVEL_BITS) | (i & RISCV_PGLEVEL_MASK)
    } else {
        (vaddr << RISCV_PGLEVEL_BITS) | (i & RISCV_PGLEVEL_MASK)
    }
}

/// The first virtual address of the page with number `vpn`.
pub open spec fn vpn_addr(vpn: u64) -> u64 {
    vpn << RISCV_PGSHIFT
}

/// Whether the leaf `pte`, which maps `va` to `pa`, is legal after what `st`
/// has seen: a page of the user part carries the user bit; an address of the
/// shared window maps into the shared region; within the runtime part and
/// within the user part each page lies above all pages mapped before; and a
/// page of neither part lies in the shared region.
pub open spec fn leaf_legal(env: walk_env, pte: u64, va: u64, pa: u64, st: walk_state) -> bool {
    &&& !(env.in_user(pa) && pte & PTE_U == 0)
    &&& !(env.va_in_utm(va) && !env.in_utm(pa))
    &&& if env.in_runtime(pa) {
        pa > st.runtime_max
    } else if env.in_user(pa) {
        pa > st.user_max
    } else {
        env.in_utm(pa)
    }
}

/// The state after the legal leaf that maps `va` to `pa`: the address opens a
/// new run if the entry before was not a leaf, and the page is hashed.
pub open spec fn after_leaf(env: walk_env, mem: phys_mem, va: u64, pa: u64, st: walk_state) -> walk_state {
    walk_state {
        stream: if st.contiguous {
            st.stream + mem.range(pa as int, RISCV_PGSIZE as nat)
        } else {
            st.stream + le_bytes(va) + mem.range(pa as int, RISCV_PGSIZE as nat)
        },
        contiguous: true,
        runtime_max: if env.in_runtime(pa) { pa } else { st.runtime_max },
        user_max: if !env.in_runtime(pa) && env.in_user(pa) { pa } else { st.user_max },
    }
}

/// The walk through the entries from `i` on of the table of level `level` at
/// `tb`, which is reached under the page number `vaddr`, and through the
/// tables below them. `None` if an entry is illegal: it points outside the
/// private and the shared region, it points to a table in the shared
/// region, or it is a leaf that is not legal.
pub open spec fn walk(
    env: walk_env,
    mem: phys_mem,
    level: nat,
    tb: u64,
    vaddr: u64,
    i: nat,
    st: walk_state,
) -> Option<walk_state>
    decreases level, PTES_PER_TABLE - i,
{
    if level == 0 || i >= PTES_PER_TABLE {
        Some(st)
    } else {
        let pte = mem.word(tb + 8 * i);
        let pa = pte_phys_addr(pte);
        let vpn = entry_vpn(level as u64, vaddr, i as u64);
        if pte == 0 {
            walk(env, mem, level, tb, vaddr, i + 1, walk_state { contiguous: false, ..st })
        } else if !env.in_epm(pa) && (!env.in_utm(pa) || level != 1) {
            None
        } else if level == 1 {
            if leaf_legal(env, pte, vpn_addr(vpn), pa, st) {
                walk(env, mem, level, tb, vaddr, i + 1, after_leaf(env, mem, vpn_addr(vpn), pa, st))
            } else {
                None
            }
        } else {
            match walk(env, mem, (level - 1) as nat, pa, vpn, 0, st) {
                None => None,
                Some(below) => walk(env, mem, level, tb, vaddr, i + 1, below),
            }
        }
    }
}

/// The state in which a measurement starts its walk.
pub open spec fn walk_start() -> walk_state {
    walk_state { stream: Seq::empty(), contiguous: false, runtime_max: 0, user_max: 0 }
}

/// The bytes of the declared virtual addresses, as they are hashed.
pub open spec fn params_bytes(p: runtime_va_params_t) -> Seq<u8> {
    le_bytes(p.runtime_entry) + le_bytes(p.user_entry) + le_bytes(p.untrusted_ptr) + le_bytes(
        p.untrusted_size,
    )
}

/// The address of the root page table that `satp` names.
pub open spec fn satp_root(satp: u64) -> u64 {
    satp << RISCV_PGSHIFT
}

/// The bytes that the page tables under `satp` add to the measurement, or
/// `None` if they hold an illegal entry.
pub open spec fn measured_stream(env: walk_env, mem: phys_mem, satp: u64) -> Option<Seq<u8>> {
    match walk(env, mem, RISCV_PGLEVEL_TOP as nat, satp_root(satp), 0, 0, walk_start()) {
        None => None,
        Some(st) => Some(st.stream),
    }
}

/// The measurement of an enclave with the declared addresses `params` and the
/// page tables under `satp`, or `None` if they hold an illegal entry: the
/// SHA3-512 digest of the declared addresses followed by, for each run of
/// neighbouring leaves, its first virtual address and the pages it maps.
pub open spec fn measurement(
    env: walk_env,
    mem: phys_mem,
    params: runtime_va_params_t,
    satp: u64,
) -> Option<Seq<u8>> {
    match measured_stream(env, mem, satp) {
        None => None,
        Some(stream) => Some(sha3(params_bytes(params) + stream, MDSIZE as int)),
    }
}

/// The start and the size of the enclave's first region of type `entype`; an
/// enclave without one has the empty range at 0.
pub open spec fn region_range(e: enclave, pmp: pmp_table, entype: enclave_region_type) -> (u64, u64) {
    let idx = e.region_index(entype);
    if idx < 0 {
        (0, 0)
    } else {
        let rid = e.regions[idx].pmp_rid as int;
        if pmp.valid(rid) {
            (pmp.regions[rid].addr, pmp.regions[rid].size)
        } else {
            (0, 0)
        }
    }
}

/// What the mappings of enclave `e` are checked against.
pub open spec fn enclave_env(e: enclave, pmp: pmp_table) -> walk_env {
    walk_env {
        epm_start: region_range(e, pmp, enclave_region_type::REGION_EPM).0,
        epm_size: region_range(e, pmp, enclave_region_type::REGION_EPM).1,
        utm_start: region_range(e, pmp, enclave_region_type::REGION_UTM).0,
        utm_size: region_range(e, pmp, enclave_region_type::REGION_UTM).1,
        runtime_base: e.pa_params.runtime_base,
        user_base: e.pa_params.user_base,
        free_base: e.pa_params.free_base,
        untrusted_ptr: e.params.untrusted_ptr,
        untrusted_size: e.params.untrusted_size,
    }
}

fn get_region_range(e: &enclave, pmp: &pmp_table, entype: enclave_region_type) -> (r: (u64, u64))
    ensures
        r == region_range(*e, *pmp, entype),
{
    let idx = e.find_region(entype);
    if idx < 0 {
        (0, 0)
    } else {
        let rid = e.regions[idx as usize].pmp_rid;
        (pmp_region_get_addr(pmp, rid), pmp_region_get_size(pmp, rid))
    }
}

/// Whether `addr` lies in `[start, start + size)`.
fn in_range(addr: u64, start: u64, size: u64) -> (r: bool)
    ensures
        r == (start <= addr < start + size),
{
    addr >= start && addr - start < size
}

proof fn lemma_table_aligned(x: u64)
    by (bit_vector)
    ensures
        (x << 12) <= 0xffff_ffff_ffff_f000u64,
{
}

/// Measures enclave `enclave`: hashes its declared addresses and walks its
/// page tables, in the memory `mem`, against its regions in `pmp`. Puts the
/// measurement into the enclave's `hash`; fails with
/// `SBI_ERR_SM_ENCLAVE_ILLEGAL_PTE`, changing nothing, if an entry is illegal.
pub fn validate_and_hash_enclave(enclave: &mut enclave, pmp: &pmp_table, mem: &phys_mem) -> (r:
    usize)
    ensures
        match measurement(
            enclave_env(*old(enclave), *pmp),
            *mem,
            old(enclave).params,
            old(enclave).encl_satp,
        ) {
            None => r == SBI_ERR_SM_ENCLAVE_ILLEGAL_PTE && *final(enclave) == *old(enclave),
            Some(hash) => r == SBI_ERR_SM_ENCLAVE_SUCCESS && final(enclave).hash@ == hash
                && *final(enclave) == (enclave { hash: final(enclave).hash, ..*old(enclave) }),
        },
{
    let mut hash_ctx = crate::crypt::sha3::Sha3Ctx::new(MDSIZE);
    let ptlevel: u64 = RISCV_PGLEVEL_TOP;

    hash_init(&mut hash_ctx);

    // hash the runtime parameters
    let mut params: Vec<u8> = Vec::new();
    let w0 = word_to_le(enclave.params.runtime_entry);
    let w1 = word_to_le(enclave.params.user_entry);
    let w2 = word_to_le(enclave.params.untrusted_ptr);
    let w3 = word_to_le(enclave.params.untrusted_size);
    params.extend_from_slice(&w0);
    params.extend_from_slice(&w1);
    params.extend_from_slice(&w2);
    params.extend_from_slice(&w3);
    assert(params@ =~= params_bytes(enclave.params));
    hash_extend(&mut hash_ctx, params.as_slice(), 32);
    assert(params@.take(32) =~= params@);

    let epm = get_region_range(enclave, pmp, enclave_region_type::REGION_EPM);
    let utm = get_region_range(enclave, pmp, enclave_region_type::REGION_UTM);
    let env = walk_env {
        epm_start: epm.0,
        epm_size: epm.1,
        utm_start: utm.0,
        utm_size: utm.1,
        runtime_base: enclave.pa_params.runtime_base,
        user_base: enclave.pa_params.user_base,
        free_base: enclave.pa_params.free_base,
        untrusted_ptr: enclave.params.untrusted_ptr,
        untrusted_size: enclave.params.untrusted_size,
    };

    let mut runtime_max_seen: u64 = 0;
    let mut user_max_seen: u64 = 0;
    let root = enclave.encl_satp << RISCV_PGSHIFT;
    proof {
        lemma_table_aligned(enclave.encl_satp);
        assert(params@ + Seq::<u8>::empty() =~= params@);
    }

    // hash the epm contents including the virtual addresses
    let valid: i32 = validate_and_hash_epm(
        &mut hash_ctx,
        ptlevel,
        root,
        0,
        0,
        &env,
        mem,
        &mut runtime_max_seen,
        &mut user_max_seen,
        Ghost(params@),
        Ghost(Seq::empty()),
    );

    if valid == -1 {
        return SBI_ERR_SM_ENCLAVE_ILLEGAL_PTE;
    }
    hash_finalize(&mut enclave.hash, &mut hash_ctx);
    proof {
        let st = walk(env, *mem, RISCV_PGLEVEL_TOP as nat, root, 0, 0, walk_start()).unwrap();
        assert(enclave.hash@ =~= sha3(params@ + st.stream, MDSIZE as int));
    }
    SBI_ERR_SM_ENCLAVE_SUCCESS
}

/// Walks the table of level `level` at `tb` and the tables below it, hashing
/// what the leaves map. Returns -1 if an entry is illegal; otherwise 1 if the
/// last entry seen was a leaf and 0 if not.
fn validate_and_hash_epm(
    hash_ctx: &mut hash_ctx,
    level: u64,
    tb: pte_t,
    vaddr: u64,
    contiguous: i32,
    env: &walk_env,
    mem: &phys_mem,
    runtime_max_seen: &mut u64,
    user_max_seen: &mut u64,
    Ghost(prefix): Ghost<Seq<u8>>,
    Ghost(stream): Ghost<Seq<u8>>,
) -> (r: i32)
    requires
        old(hash_ctx).wf(),
        old(hash_ctx).mdlen == MDSIZE,
        old(hash_ctx).state() == absorb(empty_sponge(), hash_rate(), prefix + stream),
        1 <= level <= RISCV_PGLEVEL_TOP,
        tb <= 0xffff_ffff_ffff_f000u64,
        contiguous == 0 || contiguous == 1,
    ensures
        final(hash_ctx).wf(),
        final(hash_ctx).mdlen == MDSIZE,
        match walk(
            *env,
            *mem,
            level as nat,
            tb,
            vaddr,
            0,
            walk_state {
                stream,
                contiguous: contiguous == 1,
                runtime_max: *old(runtime_max_seen),
                user_max: *old(user_max_seen),
            },
        ) {
            None => r == -1,
            Some(st) => {
                &&& r == if st.contiguous { 1i32 } else { 0i32 }
                &&& final(hash_ctx).state() == absorb(
                    empty_sponge(),
                    hash_rate(),
                    prefix + st.stream,
                )
                &&& *final(runtime_max_seen) == st.runtime_max
                &&& *final(user_max_seen) == st.user_max
            },
        },
    decreases level,
{
    let mut cont: i32 = contiguous;
    let ghost mut cur = stream;
    let ghost start = walk_state {
        stream,
        contiguous: contiguous == 1,
        runtime_max: *old(runtime_max_seen),
        user_max: *old(user_max_seen),
    };

    /* iterate over PTEs */
    let mut i: u64 = 0;
    while i < PTES_PER_TABLE
        invariant
            i <= PTES_PER_TABLE,
            hash_ctx.wf(),
            hash_ctx.mdlen == MDSIZE,
            hash_ctx.state() == absorb(empty_sponge(), hash_rate(), prefix + cur),
            1 <= level <= RISCV_PGLEVEL_TOP,
            tb <= 0xffff_ffff_ffff_f000u64,
            cont == 0 || cont == 1,
            start == (walk_state {
                stream,
                contiguous: contiguous == 1,
                runtime_max: *old(runtime_max_seen),
                user_max: *old(user_max_seen),
            }),
            walk(*env, *mem, level as nat, tb, vaddr, 0, start) == walk(
                *env,
                *mem,
                level as nat,
                tb,
                vaddr,
                i as nat,
                walk_state {
                    stream: cur,
                    contiguous: cont == 1,
                    runtime_max: *runtime_max_seen,
                    user_max: *user_max_seen,
                },
            ),
        decreases PTES_PER_TABLE - i,
    {
        let ghost st = walk_state {
            stream: cur,
            contiguous: cont == 1,
            runtime_max: *runtime_max_seen,
            user_max: *user_max_seen,
        };
        let pte: pte_t = mem.read_u64(tb + 8 * i);
        proof {
            assert(pte == mem.word(tb + 8 * (i as nat)));
            assert((level as nat) as u64 == level);
            assert((i as nat) as u64 == i);
        }
        if pte == 0 {
            cont = 0;
            i += 1;
            continue ;
        }
        let phys_addr: u64 = (pte >> PTE_PPN_SHIFT) << RISCV_PGSHIFT;
        proof {
            lemma_table_aligned(pte >> PTE_PPN_SHIFT);
        }

        /* Check for blatantly invalid mappings */
        let map_in_epm: bool = in_range(phys_addr, env.epm_start, env.epm_size);
        let map_in_utm: bool = in_range(phys_addr, env.utm_start, env.utm_size);

        /* EPM may map anything, UTM may not map pgtables */
        if !map_in_epm && (!map_in_utm || level != 1) {
            return -1;
        }
        /* propagate the highest bit of the VA */

        let vpn: u64 = if level == RISCV_PGLEVEL_TOP && (i & RISCV_PGTABLE_HIGHEST_BIT) != 0 {
            (u64::MAX << RISCV_PGLEVEL_BITS) | (i & RISCV_PGLEVEL_MASK)
        } else {
            (vaddr << RISCV_PGLEVEL_BITS) | (i & RISCV_PGLEVEL_MASK)
        };
        let va_start: u64 = vpn << RISCV_PGSHIFT;

        if level == 1 {
            /*
             * This is where we enforce the at-most-one-mapping property.
             * To make our lives easier, we also require a 'linear' mapping
             * (for each of the user and runtime spaces independently).
             *
             * That is: given that va and vb map to pa and pb,
             *
             * va < vb  ==> pa < pb  (only within a given space)
             *
             * va != vb ==> pa != pb
             *
             * We also validate that all utm vaddrs -> utm paddrs
             */
            let in_runtime: bool = phys_addr >= env.runtime_base && phys_addr < env.user_base;
            let in_user: bool = phys_addr >= env.user_base && phys_addr < env.free_base;

            /* Validate U bit */
            if in_user && (pte & PTE_U) == 0 {
                return -1;
            }
            /* If the vaddr is in UTM, the paddr must be in UTM */

            if in_range(va_start, env.untrusted_ptr, env.untrusted_size) && !map_in_utm {
                return -1;
            }
            /* Do linear mapping validation */

            if in_runtime {
                if phys_addr <= *runtime_max_seen {
                    return -1;
                }
            } else if in_user {
                if phys_addr <= *user_max_seen {
                    return -1;
                }
            } else if map_in_utm {
                // we checked this above, its OK
            } else {
                return -1;
            }
            assert(leaf_legal(*env, pte, va_start, phys_addr, st));

            /* include the first virtual address of a contiguous range */
            if cont == 0 {
                let va_bytes = word_to_le(va_start);
                hash_extend(hash_ctx, &va_bytes, 8);
                proof {
                    assert(va_bytes@.take(8) =~= le_bytes(va_start));
                    lemma_absorb_concat(empty_sponge(), hash_rate(), prefix + cur, le_bytes(va_start));
                    assert((prefix + cur) + le_bytes(va_start) =~= prefix + (cur + le_bytes(va_start)));
                    cur = cur + le_bytes(va_start);
                }
                cont = 1;
            }
            if in_runtime {
                *runtime_max_seen = phys_addr;
            } else if in_user {
                *user_max_seen = phys_addr;
            }
            /* Page is valid, add it to the hash */

            let page = mem.read_range(phys_addr, RISCV_PGSIZE as usize);
            hash_extend_page(hash_ctx, page.as_slice());
            proof {
                assert(page@.take(RISCV_PGSIZE as int) =~= page@);
                lemma_absorb_concat(empty_sponge(), hash_rate(), prefix + cur, page@);
                assert((prefix + cur) + page@ =~= prefix + (cur + page@));
                cur = cur + page@;
                let next = after_leaf(*env, *mem, va_start, phys_addr, st);
                assert(next.stream =~= cur);
            }
        } else {
            /* otherwise, recurse on a lower level */
            let ghost below = walk(*env, *mem, (level - 1) as nat, phys_addr, vpn, 0, st);
            cont = validate_and_hash_epm(
                hash_ctx,
                level - 1,
                phys_addr,
                vpn,
                cont,
                env,
                mem,
                runtime_max_seen,
                user_max_seen,
                Ghost(prefix),
                Ghost(cur),
            );
            if cont == -1 {
                return -1;
            }
            proof {
                cur = below.unwrap().stream;
            }
        }
        i += 1;
    }
    cont
}

/// One leaf of a page table: a virtual address and the physical page it maps to.
pub struct leaf {
    pub va: u64,
    pub pa: u64,
}

/// The leaves under the entries from `i` on of the table of level `level` at
/// `tb`, in the order of the walk, whether they are legal or not.
pub open spec fn leaves(mem: phys_mem, level: nat, tb: u64, vaddr: u64, i: nat) -> Seq<leaf>
    decreases level, PTES_PER_TABLE - i,
{
    if level == 0 || i >= PTES_PER_TABLE {
        Seq::empty()
    } else {
        let pte = mem.word(tb + 8 * i);
        let pa = pte_phys_addr(pte);
        let vpn = entry_vpn(level as u64, vaddr, i as u64);
        let here = if pte == 0 {
            Seq::empty()
        } else if level == 1 {
            seq![leaf { va: vpn_addr(vpn), pa }]
        } else {
            leaves(mem, (level - 1) as nat, pa, vpn, 0)
        };
        here + leaves(mem, level, tb, vaddr, i + 1)
    }
}

/// The leaves of the page tables under `satp`.
pub open spec fn mapped_leaves(mem: phys_mem, satp: u64) -> Seq<leaf> {
    leaves(mem, RISCV_PGLEVEL_TOP as nat, satp_root(satp), 0, 0)
}

/// Whether the pages of `l` that lie in the runtime part, and those that lie
/// in the user part, each rise strictly, start above `lo` and end at most
/// at `hi`, where `lo` and `hi` give the two bounds as (runtime, user).
pub open spec fn rising(env: walk_env, lo: (u64, u64), l: Seq<leaf>, hi: (u64, u64)) -> bool {
    &&& lo.0 <= hi.0 && lo.1 <= hi.1
    &&& forall|k: int|
        0 <= k < l.len() && env.in_runtime(#[trigger] l[k].pa) ==> lo.0 < l[k].pa <= hi.0
    &&& forall|k: int| 0 <= k < l.len() && env.in_user(#[trigger] l[k].pa) ==> lo.1 < l[k].pa <= hi.1
    &&& forall|j: int, k: int|
        0 <= j < k < l.len() && env.in_runtime(#[trigger] l[j].pa) && env.in_runtime(
            #[trigger] l[k].pa,
        ) ==> l[j].pa < l[k].pa
    &&& forall|j: int, k: int|
        0 <= j < k < l.len() && env.in_user(#[trigger] l[j].pa) && env.in_user(#[trigger] l[k].pa)
            ==> l[j].pa < l[k].pa
}

proof fn lemma_rising_concat(
    env: walk_env,
    lo: (u64, u64),
    a: Seq<leaf>,
    mid: (u64, u64),
    b: Seq<leaf>,
    hi: (u64, u64),
)
    requires
        rising(env, lo, a, mid),
        rising(env, mid, b, hi),
    ensures
        rising(env, lo, a + b, hi),
{
    let l = a + b;
    assert forall|k: int| 0 <= k < l.len() implies l[k] == if k < a.len() {
        a[k]
    } else {
        b[k - a.len()]
    } by {}
    assert forall|k: int| 0 <= k < l.len() && env.in_runtime(#[trigger] l[k].pa) implies lo.0
        < l[k].pa <= hi.0 by {
        if k < a.len() {
            assert(env.in_runtime(a[k].pa));
        } else {
            assert(env.in_runtime(b[k - a.len()].pa));
        }
    }
    assert forall|k: int| 0 <= k < l.len() && env.in_user(#[trigger] l[k].pa) implies lo.1
        < l[k].pa <= hi.1 by {
        if k < a.len() {
            assert(env.in_user(a[k].pa));
        } else {
            assert(env.in_user(b[k - a.len()].pa));
        }
    }
    assert forall|j: int, k: int|
        0 <= j < k < l.len() && env.in_runtime(#[trigger] l[j].pa) && env.in_runtime(
            #[trigger] l[k].pa,
        ) implies l[j].pa < l[k].pa by {
        if k < a.len() {
            assert(env.in_runtime(a[j].pa) && env.in_runtime(a[k].pa));
        } else if j >= a.len() {
            assert(env.in_runtime(b[j - a.len()].pa) && env.in_runtime(b[k - a.len()].pa));
        } else {
            assert(env.in_runtime(a[j].pa) && env.in_runtime(b[k - a.len()].pa));
        }
    }
    assert forall|j: int, k: int|
        0 <= j < k < l.len() && env.in_user(#[trigger] l[j].pa) && env.in_user(
            #[trigger] l[k].pa,
        ) implies l[j].pa < l[k].pa by {
        if k < a.len() {
            assert(env.in_user(a[j].pa) && env.in_user(a[k].pa));
        } else if j >= a.len() {
            assert(env.in_user(b[j - a.len()].pa) && env.in_user(b[k - a.len()].pa));
        } else {
            assert(env.in_user(a[j].pa) && env.in_user(b[k - a.len()].pa));
        }
    }
}

/// A walk that succeeds has seen the leaves of its tables, and within each
/// part of the private region their pages rise strictly.
pub proof fn lemma_walk_rising(
    env: walk_env,
    mem: phys_mem,
    level: nat,
    tb: u64,
    vaddr: u64,
    i: nat,
    st: walk_state,
)
    requires
        walk(env, mem, level, tb, vaddr, i, st) is Some,
    ensures
        rising(
            env,
            (st.runtime_max, st.user_max),
            leaves(mem, level, tb, vaddr, i),
            (
                walk(env, mem, level, tb, vaddr, i, st).unwrap().runtime_max,
                walk(env, mem, level, tb, vaddr, i, st).unwrap().user_max,
            ),
        ),
    decreases level, PTES_PER_TABLE - i,
{
    if level == 0 || i >= PTES_PER_TABLE {
    } else {
        let pte = mem.word(tb + 8 * i);
        let pa = pte_phys_addr(pte);
        let vpn = entry_vpn(level as u64, vaddr, i as u64);
        let lo = (st.runtime_max, st.user_max);
        let end = walk(env, mem, level, tb, vaddr, i, st).unwrap();
        let hi = (end.runtime_max, end.user_max);
        let rest = leaves(mem, level, tb, vaddr, i + 1);
        if pte == 0 {
            let st1 = walk_state { contiguous: false, ..st };
            lemma_walk_rising(env, mem, level, tb, vaddr, i + 1, st1);
            assert(Seq::<leaf>::empty() + rest =~= rest);
        } else if level == 1 {
            let st1 = after_leaf(env, mem, vpn_addr(vpn), pa, st);
            lemma_walk_rising(env, mem, level, tb, vaddr, i + 1, st1);
            let here = seq![leaf { va: vpn_addr(vpn), pa }];
            let mid = (st1.runtime_max, st1.user_max);
            assert(rising(env, lo, here, mid));
            lemma_rising_concat(env, lo, here, mid, rest, hi);
        } else {
            let below = walk(env, mem, (level - 1) as nat, pa, vpn, 0, st).unwrap();
            lemma_walk_rising(env, mem, (level - 1) as nat, pa, vpn, 0, st);
            lemma_walk_rising(env, mem, level, tb, vaddr, i + 1, below);
            lemma_rising_concat(
                env,
                lo,
                leaves(mem, (level - 1) as nat, pa, vpn, 0),
                (below.runtime_max, below.user_max),
                rest,
                hi,
            );
        }
    }
}

/// Page tables in which two leaves map the same page of the user part, or of
/// the runtime part, of the private region are not measured: the walk fails.
pub proof fn lemma_alias_rejected(env: walk_env, mem: phys_mem, satp: u64, j: int, k: int)
    requires
        0 <= j < mapped_leaves(mem, satp).len(),
        0 <= k < mapped_leaves(mem, satp).len(),
        j != k,
        mapped_leaves(mem, satp)[j].pa == mapped_leaves(mem, satp)[k].pa,
        env.in_user(mapped_leaves(mem, satp)[j].pa) || env.in_runtime(mapped_leaves(mem, satp)[j].pa),
    ensures
        measured_stream(env, mem, satp) is None,
        forall|params: runtime_va_params_t| measurement(env, mem, params, satp) is None,
{
    let l = mapped_leaves(mem, satp);
    if walk(env, mem, RISCV_PGLEVEL_TOP as nat, satp_root(satp), 0, 0, walk_start()) is Some {
        lemma_walk_rising(env, mem, RISCV_PGLEVEL_TOP as nat, satp_root(satp), 0, 0, walk_start());
        if j < k {
            assert(env.in_user(l[j].pa) ==> env.in_user(l[k].pa));
            assert(env.in_runtime(l[j].pa) ==> env.in_runtime(l[k].pa));
        } else {
            assert(env.in_user(l[k].pa) ==> env.in_user(l[j].pa));
            assert(env.in_runtime(l[k].pa) ==> env.in_runtime(l[j].pa));
        }
    }
}

/// Whether the entries from `i` on of the table of level `level` at `tb1` in
/// `mem1` and those of the table at `tb2` in `mem2` map the same: an entry
/// is empty in both or in neither; leaves point to the same page and the
/// page holds the same bytes in both memories; and the tables that entries
/// point to map the same in turn, wherever they lie.
pub open spec fn same_mapping(
    mem1: phys_mem,
    tb1: u64,
    mem2: phys_mem,
    tb2: u64,
    level: nat,
    i: nat,
) -> bool
    decreases level, PTES_PER_TABLE - i,
{
    if level == 0 || i >= PTES_PER_TABLE {
        true
    } else {
        let pte1 = mem1.word(tb1 + 8 * i);
        let pte2 = mem2.word(tb2 + 8 * i);
        let pa1 = pte_phys_addr(pte1);
        let pa2 = pte_phys_addr(pte2);
        &&& (pte1 == 0) == (pte2 == 0)
        &&& pte1 != 0 ==> if level == 1 {
            pa1 == pa2 && mem1.range(pa1 as int, RISCV_PGSIZE as nat) == mem2.range(
                pa2 as int,
                RISCV_PGSIZE as nat,
            )
        } else {
            same_mapping(mem1, pa1, mem2, pa2, (level - 1) as nat, 0)
        }
        &&& same_mapping(mem1, tb1, mem2, tb2, level, i + 1)
    }
}

/// Two walks through tables that map the same end in the same state, if both succeed.
pub proof fn lemma_walk_same_mapping(
    env: walk_env,
    mem1: phys_mem,
    tb1: u64,
    mem2: phys_mem,
    tb2: u64,
    level: nat,
    vaddr: u64,
    i: nat,
    st: walk_state,
)
    requires
        same_mapping(mem1, tb1, mem2, tb2, level, i),
        walk(env, mem1, level, tb1, vaddr, i, st) is Some,
        walk(env, mem2, level, tb2, vaddr, i, st) is Some,
    ensures
        walk(env, mem1, level, tb1, vaddr, i, st) == walk(env, mem2, level, tb2, vaddr, i, st),
    decreases level, PTES_PER_TABLE - i,
{
    if level == 0 || i >= PTES_PER_TABLE {
    } else {
        let pte1 = mem1.word(tb1 + 8 * i);
        let pte2 = mem2.word(tb2 + 8 * i);
        let pa1 = pte_phys_addr(pte1);
        let pa2 = pte_phys_addr(pte2);
        let vpn = entry_vpn(level as u64, vaddr, i as u64);
        if pte1 == 0 {
            lemma_walk_same_mapping(
                env,
                mem1,
                tb1,
                mem2,
                tb2,
                level,
                vaddr,
                i + 1,
                walk_state { contiguous: false, ..st },
            );
        } else if level == 1 {
            let st1 = after_leaf(env, mem1, vpn_addr(vpn), pa1, st);
            let st2 = after_leaf(env, mem2, vpn_addr(vpn), pa2, st);
            assert(st1 == st2);
            lemma_walk_same_mapping(env, mem1, tb1, mem2, tb2, level, vaddr, i + 1, st1);
        } else {
            lemma_walk_same_mapping(env, mem1, pa1, mem2, pa2, (level - 1) as nat, vpn, 0, st);
            let below = walk(env, mem1, (level - 1) as nat, pa1, vpn, 0, st).unwrap();
            lemma_walk_same_mapping(env, mem1, tb1, mem2, tb2, level, vaddr, i + 1, below);
        }
    }
}

/// The measurement depends on what the page tables map, not on where the
/// tables lie: two enclaves with the same declared addresses whose page
/// tables map the same virtual addresses to the same pages with the same
/// bytes have the same measurement, if both are measured.
pub proof fn lemma_measurement_by_mapping(
    env: walk_env,
    params: runtime_va_params_t,
    mem1: phys_mem,
    satp1: u64,
    mem2: phys_mem,
    satp2: u64,
)
    requires
        same_mapping(
            mem1,
            satp_root(satp1),
            mem2,
            satp_root(satp2),
            RISCV_PGLEVEL_TOP as nat,
            0,
        ),
        measurement(env, mem1, params, satp1) is Some,
        measurement(env, mem2, params, satp2) is Some,
    ensures
        measurement(env, mem1, params, satp1) == measurement(env, mem2, params, satp2),
{
    lemma_walk_same_mapping(
        env,
        mem1,
        satp_root(satp1),
        mem2,
        satp_root(satp2),
        RISCV_PGLEVEL_TOP as nat,
        0,
        0,
        walk_start(),
    );
}

} // verus!
