//! The evictable unit of a hold and the arithmetic over lists of units.

use vstd::prelude::*;

verus! {

/// One evictable unit: a per-fingerprint directory (or a flat artifact file)
/// under `deps/`, `.fingerprint/` or `incremental/` of a profile.
#[derive(Debug)]
pub struct Unit {
    /// Path of the unit.
    pub path: String,
    /// Total bytes of all files within the unit.
    pub bytes: u64,
    /// Most recent modification time across the unit's files, in nanoseconds
    /// relative to the Unix epoch (negative before it); orders units for LRU.
    pub last_used: i128,
    /// True if a `.cargo-lock` file exists in the unit directory.
    pub is_locked: bool,
}

impl Clone for Unit {
    fn clone(&self) -> (r: Self)
        ensures
            r == *self,
    {
        Unit {
            path: self.path.clone(),
            bytes: self.bytes,
            last_used: self.last_used,
            is_locked: self.is_locked,
        }
    }
}

/// Sum of the sizes of a list of units.
pub open spec fn total_bytes(s: Seq<Unit>) -> int
    decreases s.len(),
{
    if s.len() == 0 {
        0
    } else {
        total_bytes(s.drop_last()) + s.last().bytes
    }
}

/// The size of a concatenation is the sum of the sizes.
pub proof fn lemma_total_bytes_concat(a: Seq<Unit>, b: Seq<Unit>)
    ensures
        total_bytes(a + b) == total_bytes(a) + total_bytes(b),
    decreases b.len(),
{
    if b.len() == 0 {
        assert(a + b =~= a);
    } else {
        lemma_total_bytes_concat(a, b.drop_last());
        assert((a + b).drop_last() =~= a + b.drop_last());
    }
}

/// A single unit weighs its own size.
pub proof fn lemma_total_bytes_single(u: Unit)
    ensures
        total_bytes(seq![u]) == u.bytes,
{
    assert(seq![u].drop_last() =~= Seq::<Unit>::empty());
    assert(seq![u].last() == u);
    assert(total_bytes(Seq::<Unit>::empty()) == 0);
    assert(total_bytes(seq![u].drop_last()) == 0);
}

/// Sizes are never negative.
pub proof fn lemma_total_bytes_nonneg(s: Seq<Unit>)
    ensures
        total_bytes(s) >= 0,
    decreases s.len(),
{
    if s.len() > 0 {
        lemma_total_bytes_nonneg(s.drop_last());
    }
}

/// A prefix never weighs more than the whole list.
pub proof fn lemma_total_bytes_prefix(s: Seq<Unit>, k: int)
    requires
        0 <= k <= s.len(),
    ensures
        0 <= total_bytes(s.take(k)) <= total_bytes(s),
        total_bytes(s.take(k)) + total_bytes(s.skip(k)) == total_bytes(s),
{
    assert(s =~= s.take(k) + s.skip(k));
    lemma_total_bytes_concat(s.take(k), s.skip(k));
    lemma_total_bytes_nonneg(s.take(k));
    lemma_total_bytes_nonneg(s.skip(k));
}

/// Adds up the sizes of `units`; `None` when the sum does not fit in a `u64`.
pub fn sum_bytes(units: &[Unit]) -> (r: Option<u64>)
    ensures
        match r {
            Some(t) => t == total_bytes(units@),
            None => total_bytes(units@) > u64::MAX,
        },
{
    let mut acc: u64 = 0;
    let mut i: usize = 0;
    while i < units.len()
        invariant
            i <= units@.len(),
            acc == total_bytes(units@.take(i as int)),
        decreases units@.len() - i,
    {
        assert(units@.take(i + 1).drop_last() =~= units@.take(i as int));
        match acc.checked_add(units[i].bytes) {
            Some(next) => {
                acc = next;
            },
            None => {
                proof {
                    lemma_total_bytes_prefix(units@, i + 1);
                }
                return None;
            },
        }
        i = i + 1;
    }
    assert(units@.take(i as int) =~= units@);
    Some(acc)
}

} // verus!
