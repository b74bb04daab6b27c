//! Protection updates sent from one hart to all started harts.
use vstd::prelude::*;
use crate::machine::{hart_state, machine};
use crate::opensbi::{
    bit64,
    current_hartid,
    sbi_hartmask,
    SBI_HARTMASK_INIT_EXCEPT,
    sbi_hsm_hart_started_mask,
    sbi_tlb_info,
};
use crate::pmp::{pmp_set_keystone, pmp_table, pmp_unset};

verus! {

pub const SBI_PMP_IPI_TYPE_SET: u64 = 0;

pub const SBI_PMP_IPI_TYPE_UNSET: u64 = 1;

/// Number of harts that an update is sent to: those of the platform.
pub const IPI_HARTS: usize = 8;

/// The region that a request names.
pub open spec fn ipi_region(info: sbi_tlb_info) -> int {
    (info.asid as i32) as int
}

/// `hart` after it has done the update that `info` asks for: the entries of
/// the named region programmed to the permissions in `vmid` if `start` says
/// "set", cleared otherwise.
pub open spec fn ipi_result(pmp: pmp_table, hart: hart_state, info: sbi_tlb_info) -> hart_state {
    if info.start == SBI_PMP_IPI_TYPE_SET {
        pmp.hart_after_set(hart, ipi_region(info), info.vmid as u8)
    } else {
        pmp.hart_after_unset(hart, ipi_region(info))
    }
}

/// What a hart does when a protection update reaches it.
pub fn sbi_pmp_ipi_local_update(pmp: &pmp_table, hart: &mut hart_state, info: &sbi_tlb_info)
    requires
        pmp.wf(),
    ensures
        *final(hart) == ipi_result(*pmp, *old(hart), *info),
{
    let rid =  #[verifier::truncate]
    (info.asid as i32);
    let perm =  #[verifier::truncate]
    (info.vmid as u8);
    if info.start == SBI_PMP_IPI_TYPE_SET {
        pmp_set_keystone(pmp, hart, rid, perm);
    } else {
        pmp_unset(pmp, hart, rid);
    }
}

/// `hart` with region `rid` programmed to `perm`, if `set`, or cleared, if not.
pub open spec fn hart_updated(pmp: pmp_table, hart: hart_state, rid: int, set: bool, perm: u8) -> hart_state {
    if set {
        pmp.hart_after_set(hart, rid, perm)
    } else {
        pmp.hart_after_unset(hart, rid)
    }
}

/// The harts after the update of region `rid` has been applied on every
/// started hart below hart `n`.
pub open spec fn broadcast_upto(
    pmp: pmp_table,
    harts: [hart_state; 16],
    rid: int,
    set: bool,
    perm: u8,
    n: nat,
) -> [hart_state; 16]
    decreases n,
{
    if n == 0 {
        harts
    } else {
        let prev = broadcast_upto(pmp, harts, rid, set, perm, (n - 1) as nat);
        if harts[n - 1].started {
            vstd::array::spec_array_update(
                prev,
                n - 1,
                hart_updated(pmp, harts[n - 1], rid, set, perm),
            )
        } else {
            prev
        }
    }
}

/// The harts after the update of region `rid` has been applied on every
/// started hart of the platform: the region programmed to `perm`, if `set`,
/// or cleared, if not. Harts that are not started stay as they are.
pub open spec fn broadcast_harts(
    pmp: pmp_table,
    harts: [hart_state; 16],
    rid: int,
    set: bool,
    perm: u8,
) -> [hart_state; 16] {
    broadcast_upto(pmp, harts, rid, set, perm, IPI_HARTS as nat)
}

/// The machine after the update of region `rid` has been applied on every
/// started hart of the platform. Memory and all else stay as they are.
pub open spec fn broadcast_result(pmp: pmp_table, m: machine, rid: int, set: bool, perm: u8) -> machine {
    machine { harts: broadcast_harts(pmp, m.harts, rid, set, perm), ..m }
}

/// What a broadcast does to each hart.
pub proof fn lemma_broadcast_upto(
    pmp: pmp_table,
    harts: [hart_state; 16],
    rid: int,
    set: bool,
    perm: u8,
    n: nat,
)
    requires
        n <= 16,
    ensures
        forall|h: int|
            0 <= h < 16 ==> #[trigger] broadcast_upto(pmp, harts, rid, set, perm, n)[h] == if h < n
                && harts[h].started {
                hart_updated(pmp, harts[h], rid, set, perm)
            } else {
                harts[h]
            },
    decreases n,
{
    broadcast use vstd::array::group_array_axioms;

    if n > 0 {
        lemma_broadcast_upto(pmp, harts, rid, set, perm, (n - 1) as nat);
        let prev = broadcast_upto(pmp, harts, rid, set, perm, (n - 1) as nat);
        let cur = broadcast_upto(pmp, harts, rid, set, perm, n);
        assert forall|h: int| 0 <= h < 16 implies #[trigger] cur[h] == if h < n && harts[h].started {
            hart_updated(pmp, harts[h], rid, set, perm)
        } else {
            harts[h]
        } by {
            assert(prev[h] == if h < n - 1 && harts[h].started {
                hart_updated(pmp, harts[h], rid, set, perm)
            } else {
                harts[h]
            });
            if harts[n - 1].started {
                assert(cur@ == prev@.update(n - 1, hart_updated(pmp, harts[n - 1], rid, set, perm)));
            }
        }
    }
}

/// An update of a slot that holds no region changes nothing.
pub proof fn lemma_broadcast_invalid(pmp: pmp_table, m: machine, rid: int, set: bool, perm: u8)
    requires
        !pmp.valid(rid),
    ensures
        broadcast_harts(pmp, m.harts, rid, set, perm) == m.harts,
        broadcast_result(pmp, m, rid, set, perm) == m,
{
    broadcast use vstd::array::group_array_axioms;

    lemma_broadcast_upto(pmp, m.harts, rid, set, perm, IPI_HARTS as nat);
    assert(broadcast_harts(pmp, m.harts, rid, set, perm) =~= m.harts);
}

/// Sends the update of region `region_idx` to every started hart of the
/// platform and waits until each has applied it.
pub(crate) fn send_and_sync_pmp_ipi(
    pmp: &pmp_table,
    m: &mut machine,
    region_idx: i32,
    ipi_type: i32,
    perm: u8,
)
    requires
        pmp.wf(),
        0 <= region_idx,
        ipi_type == SBI_PMP_IPI_TYPE_SET || ipi_type == SBI_PMP_IPI_TYPE_UNSET,
    ensures
        *final(m) == broadcast_result(
            *pmp,
            *old(m),
            region_idx as int,
            ipi_type == SBI_PMP_IPI_TYPE_SET,
            perm,
        ),
{
    broadcast use vstd::array::group_array_axioms;

    let mut mask: u64 = 0;
    let source_hart: usize = current_hartid(m);
    sbi_hsm_hart_started_mask(m, 0, &mut mask);
    let mut smask = sbi_hartmask { bits: [0; 2] };
    SBI_HARTMASK_INIT_EXCEPT(&mut smask, source_hart);
    let tlb_info = sbi_tlb_info {
        start: ipi_type as u64,
        size: 0,
        asid: region_idx as u64,
        vmid: perm as u64,
        smask,
    };
    assert(ipi_region(tlb_info) == region_idx);
    assert(tlb_info.vmid as u8 == perm);
    let ghost set = ipi_type == SBI_PMP_IPI_TYPE_SET;
    let mut h: usize = 0;
    while h < IPI_HARTS
        invariant
            h <= IPI_HARTS,
            pmp.wf(),
            ipi_region(tlb_info) == region_idx,
            tlb_info.vmid as u8 == perm,
            tlb_info.start == ipi_type as u64,
            set == (ipi_type == SBI_PMP_IPI_TYPE_SET),
            ipi_type == SBI_PMP_IPI_TYPE_SET || ipi_type == SBI_PMP_IPI_TYPE_UNSET,
            forall|k: u64|
                k < 64 ==> (#[trigger] bit64(mask, k) <==> k < 8 && old(m).harts[k as int].started),
            m.harts == broadcast_upto(*pmp, old(m).harts, region_idx as int, set, perm, h as nat),
            *m == (machine { harts: m.harts, ..*old(m) }),
        decreases IPI_HARTS - h,
    {
        assert(bit64(mask, h as u64) <==> h < 8 && old(m).harts[h as int].started);
        proof {
            lemma_broadcast_upto(*pmp, old(m).harts, region_idx as int, set, perm, h as nat);
        }
        if (mask >> (h as u64)) & 1 == 1 {
            let ghost before = *m;
            sbi_pmp_ipi_local_update(pmp, &mut m.harts[h], &tlb_info);
            assert(m.harts =~= vstd::array::spec_array_update(
                before.harts,
                h as int,
                hart_updated(*pmp, old(m).harts[h as int], region_idx as int, set, perm),
            ));
        }
        h += 1;
    }
}

} // verus!
