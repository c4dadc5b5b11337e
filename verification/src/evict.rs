//! Accounting for the removal of selected units.

use vstd::prelude::*;
use crate::unit::Unit;

verus! {

/// Bytes of the units that were still present when removal reached them.
pub open spec fn present_bytes(units: Seq<Unit>, present: Seq<bool>) -> int
    decreases units.len(),
{
    if units.len() == 0 || present.len() == 0 {
        0
    } else {
        present_bytes(units.drop_last(), present.drop_last()) + if present.last() {
            units.last().bytes as int
        } else {
            0
        }
    }
}

/// Reclaimed bytes add up over consecutive runs of units with their flags.
pub proof fn lemma_present_bytes_concat(a: Seq<Unit>, pa: Seq<bool>, b: Seq<Unit>, pb: Seq<bool>)
    requires
        a.len() == pa.len(),
        b.len() == pb.len(),
    ensures
        present_bytes(a + b, pa + pb) == present_bytes(a, pa) + present_bytes(b, pb),
    decreases b.len(),
{
    if b.len() == 0 {
        assert(a + b =~= a);
        assert(pa + pb =~= pa);
    } else {
        lemma_present_bytes_concat(a, pa, b.drop_last(), pb.drop_last());
        assert((a + b).drop_last() =~= a + b.drop_last());
        assert((pa + pb).drop_last() =~= pa + pb.drop_last());
    }
}

/// A single unit counts its bytes exactly when it was present.
pub proof fn lemma_present_bytes_single(u: Unit, present: bool)
    ensures
        present_bytes(seq![u], seq![present]) == if present {
            u.bytes as int
        } else {
            0
        },
{
    assert(seq![u].drop_last() =~= Seq::<Unit>::empty());
    assert(seq![present].drop_last() =~= Seq::<bool>::empty());
    assert(seq![u].last() == u);
    assert(seq![present].last() == present);
    assert(present_bytes(Seq::<Unit>::empty(), Seq::<bool>::empty()) == 0);
}

proof fn lemma_present_bytes_prefix(units: Seq<Unit>, present: Seq<bool>, k: int)
    requires
        units.len() == present.len(),
        0 <= k <= units.len(),
    ensures
        present_bytes(units.take(k), present.take(k)) <= present_bytes(units, present),
    decreases units.len() - k,
{
    if k < units.len() {
        lemma_present_bytes_prefix(units, present, k + 1);
        assert(units.take(k + 1).drop_last() =~= units.take(k));
        assert(present.take(k + 1).drop_last() =~= present.take(k));
    } else {
        assert(units.take(k) =~= units);
        assert(present.take(k) =~= present);
    }
}

/// Bytes reclaimed by removing `units`, where `present[i]` tells whether
/// `units[i]` still existed (only those count). `None` when the sum does not
/// fit in a `u64`.
pub fn reclaimed_total(units: &[Unit], present: &[bool]) -> (r: Option<u64>)
    requires
        units@.len() == present@.len(),
    ensures
        match r {
            Some(t) => t == present_bytes(units@, present@),
            None => present_bytes(units@, present@) > u64::MAX,
        },
{
    let mut acc: u64 = 0;
    let mut i: usize = 0;
    while i < units.len()
        invariant
            i <= units@.len(),
            units@.len() == present@.len(),
            acc == present_bytes(units@.take(i as int), present@.take(i as int)),
        decreases units@.len() - i,
    {
        assert(units@.take(i + 1).drop_last() =~= units@.take(i as int));
        assert(present@.take(i + 1).drop_last() =~= present@.take(i as int));
        if present[i] {
            match acc.checked_add(units[i].bytes) {
                Some(t) => {
                    acc = t;
                },
                None => {
                    proof {
                        lemma_present_bytes_prefix(units@, present@, i + 1);
                    }
                    return None;
                },
            }
        }
        i = i + 1;
    }
    assert(units@.take(i as int) =~= units@);
    assert(present@.take(i as int) =~= present@);
    Some(acc)
}

} // verus!
