//! The eviction policy: which units leave the hold, and in what order.

use vstd::prelude::*;
use crate::unit::{Unit, total_bytes, lemma_total_bytes_prefix, lemma_total_bytes_nonneg};
use crate::measure::{
    oldest_first,
    is_oldest_first,
    sort_oldest_first,
    lemma_oldest_first,
    lemma_oldest_first_contains,
};

verus! {

/// The units of `s` that hold no `.cargo-lock`, in their original order.
pub open spec fn unlocked(s: Seq<Unit>) -> Seq<Unit>
    decreases s.len(),
{
    if s.len() == 0 {
        Seq::empty()
    } else if s.last().is_locked {
        unlocked(s.drop_last())
    } else {
        unlocked(s.drop_last()).push(s.last())
    }
}

/// The eviction candidates of a hold: its unlocked units, oldest first.
pub open spec fn lru_candidates(units: Seq<Unit>) -> Seq<Unit> {
    oldest_first(unlocked(units))
}

/// The projected hold size once `evicted` are gone, starting from `total`
/// (never below zero).
pub open spec fn after_evicting(total: int, evicted: Seq<Unit>) -> int {
    if total - total_bytes(evicted) > 0 {
        total - total_bytes(evicted)
    } else {
        0
    }
}

/// How many of the candidates `c` are taken, counting from `k`: taking stops at
/// the first count whose projected size is at or below `low`, or when the
/// candidates run out.
pub open spec fn stop_index(c: Seq<Unit>, total: int, low: int, k: nat) -> nat
    decreases c.len() - k,
{
    if k >= c.len() || after_evicting(total, c.take(k as int)) <= low {
        k
    } else {
        stop_index(c, total, low, k + 1)
    }
}

/// The units evicted from a hold of `total` bytes to bring it to `low`:
/// the oldest unlocked units, as many as it takes.
pub open spec fn lru_selection(units: Seq<Unit>, total: int, low: int) -> Seq<Unit> {
    let c = lru_candidates(units);
    c.take(stop_index(c, total, low, 0) as int)
}

/// What a hold of `total` bytes against `cap` loses: nothing while it is
/// within its cap; once over, the LRU selection down to `low`.
pub open spec fn eviction(units: Seq<Unit>, total: int, cap: int, low: int) -> Seq<Unit> {
    if total > cap {
        lru_selection(units, total, low)
    } else {
        Seq::empty()
    }
}

proof fn lemma_unlocked(s: Seq<Unit>)
    ensures
        forall|i: int| 0 <= i < unlocked(s).len() ==> !(#[trigger] unlocked(s)[i]).is_locked,
        forall|i: int| 0 <= i < unlocked(s).len() ==> s.contains(#[trigger] unlocked(s)[i]),
        0 <= total_bytes(unlocked(s)) <= total_bytes(s),
        unlocked(s).len() <= s.len(),
    decreases s.len(),
{
    if s.len() > 0 {
        let p = s.drop_last();
        lemma_unlocked(p);
        lemma_total_bytes_nonneg(unlocked(s));
        assert forall|i: int| 0 <= i < unlocked(s).len() implies s.contains(
            #[trigger] unlocked(s)[i],
        ) by {
            if i < unlocked(p).len() {
                assert(unlocked(s)[i] == unlocked(p)[i]);
                let j = choose|j: int| 0 <= j < p.len() && p[j] == unlocked(p)[i];
                assert(s[j] == p[j]);
            } else {
                assert(s[s.len() - 1] == s.last());
            }
        }
        if !s.last().is_locked {
            assert(unlocked(s).drop_last() =~= unlocked(p));
        }
    }
}

proof fn lemma_after_evicting_step(total: int, c: Seq<Unit>, j: int)
    requires
        0 <= j < c.len(),
    ensures
        after_evicting(total, c.take(j + 1)) == if after_evicting(total, c.take(j)) - c[j].bytes
            > 0 {
            after_evicting(total, c.take(j)) - c[j].bytes
        } else {
            0
        },
{
    assert(c.take(j + 1).drop_last() =~= c.take(j));
}

/// Selects the units to evict from a hold of `total` bytes: nothing while
/// the hold is within `cap`; once it is over, unlocked units only, oldest
/// access first, stopping as soon as the projected size is at or below
/// `low_water`. The result is in LRU order (oldest access first).
pub fn select_evict_units(units: &[Unit], total: u64, cap: u64, low_water: u64) -> (r: Vec<Unit>)
    ensures
        r@ == eviction(units@, total as int, cap as int, low_water as int),
        // a hold within its cap loses nothing
        total <= cap ==> r@.len() == 0,
        // locks are never evicted
        forall|i: int| 0 <= i < r@.len() ==> !(#[trigger] r@[i]).is_locked,
        // only units of the hold are evicted, oldest first
        forall|i: int| 0 <= i < r@.len() ==> units@.contains(#[trigger] r@[i]),
        is_oldest_first(r@),
        // every evicted unit was needed: the projection was above low water
        forall|k: int|
            0 <= k < r@.len() ==> after_evicting(total as int, #[trigger] r@.take(k))
                > low_water,
        // a hold at or below low water loses nothing
        total <= low_water ==> r@.len() == 0,
        // and eviction of a hold over its cap stops at low water, unless the
        // candidates ran out
        total > cap ==> (r@.len() == lru_candidates(units@).len() || after_evicting(
            total as int,
            r@,
        ) <= low_water),
        0 <= total_bytes(r@) <= total_bytes(units@),
        // hot units survive: every evicted unit is at most as old as every
        // unlocked unit that stays
        forall|i: int, j: int|
            0 <= i < r@.len() <= j < lru_candidates(units@).len() ==> (#[trigger] r@[i]).last_used
                <= (#[trigger] lru_candidates(units@)[j]).last_used,
{
    if total <= cap {
        proof {
            lemma_total_bytes_nonneg(units@);
            assert(total_bytes(Seq::<Unit>::empty()) == 0);
        }
        return Vec::new();
    }
    let ghost c = lru_candidates(units@);
    proof {
        lemma_unlocked(units@);
        lemma_oldest_first(unlocked(units@));
    }
    // unlocked units, in hold order
    let mut candidates: Vec<Unit> = Vec::new();
    let mut i: usize = 0;
    while i < units.len()
        invariant
            i <= units@.len(),
            candidates@ == unlocked(units@.take(i as int)),
        decreases units@.len() - i,
    {
        assert(units@.take(i + 1).drop_last() =~= units@.take(i as int));
        if !units[i].is_locked {
            candidates.push(units[i].clone());
        }
        i = i + 1;
    }
    assert(units@.take(i as int) =~= units@);
    let sorted = sort_oldest_first(&candidates);
    assert(sorted@ == c);

    let mut selected: Vec<Unit> = Vec::new();
    let mut remaining: u64 = total;
    let mut j: usize = 0;
    assert(c.take(0) =~= Seq::<Unit>::empty());
    while j < sorted.len()
        invariant_except_break
            j <= c.len(),
            sorted@ == c,
            selected@ == c.take(j as int),
            remaining == after_evicting(total as int, c.take(j as int)),
            stop_index(c, total as int, low_water as int, 0) == stop_index(
                c,
                total as int,
                low_water as int,
                j as nat,
            ),
        ensures
            selected@ == c.take(stop_index(c, total as int, low_water as int, 0) as int),
        decreases c.len() - j,
    {
        if remaining <= low_water {
            break;
        }
        selected.push(sorted[j].clone());
        proof {
            lemma_after_evicting_step(total as int, c, j as int);
            assert(c.take(j + 1) =~= c.take(j as int).push(c[j as int]));
        }
        remaining = remaining.saturating_sub(sorted[j].bytes);
        j = j + 1;
    }
    proof {
        let n = stop_index(c, total as int, low_water as int, 0) as int;
        lemma_stop_index(c, total as int, low_water as int, 0);
        lemma_total_bytes_prefix(c, n);
        assert forall|i: int| 0 <= i < selected@.len() implies !(
        #[trigger] selected@[i]).is_locked && units@.contains(selected@[i]) by {
            lemma_oldest_first_contains(unlocked(units@), i);
            let u = selected@[i];
            let k = choose|k: int| 0 <= k < unlocked(units@).len() && unlocked(units@)[k] == u;
            assert(!unlocked(units@)[k].is_locked);
        }
        assert forall|k: int| 0 <= k < selected@.len() implies after_evicting(
            total as int,
            #[trigger] selected@.take(k),
        ) > low_water by {
            assert(selected@.take(k) =~= c.take(k));
            lemma_stop_index_above(c, total as int, low_water as int, 0, k as nat);
        }
        if selected@.len() < c.len() {
            assert(selected@ =~= c.take(n));
        }
    }
    selected
}

/// Where taking stops: at or after `k`, within the candidates, and at a
/// projection at or below `low` unless the candidates ran out.
proof fn lemma_stop_index(c: Seq<Unit>, total: int, low: int, k: nat)
    requires
        k <= c.len(),
    ensures
        k <= stop_index(c, total, low, k) <= c.len(),
        stop_index(c, total, low, k) == c.len() || after_evicting(
            total,
            c.take(stop_index(c, total, low, k) as int),
        ) <= low,
    decreases c.len() - k,
{
    if !(k >= c.len() || after_evicting(total, c.take(k as int)) <= low) {
        lemma_stop_index(c, total, low, k + 1);
    }
}

/// Before the stop, every count still projects above `low`.
proof fn lemma_stop_index_above(c: Seq<Unit>, total: int, low: int, k: nat, m: nat)
    requires
        k <= m < stop_index(c, total, low, k),
        k <= c.len(),
    ensures
        after_evicting(total, c.take(m as int)) > low,
    decreases c.len() - k,
{
    if k < m {
        lemma_stop_index_above(c, total, low, k + 1, m);
    }
}

/// Eviction takes only what it needs: a hold within its cap loses nothing,
/// and before each unit taken the projected size is still above `low`; and
/// it takes enough: the projection ends at or below `low` unless every
/// unlocked unit was taken.
pub proof fn lemma_eviction_takes_only_what_is_needed(
    units: Seq<Unit>,
    total: int,
    cap: int,
    low: int,
)
    ensures
        eviction(units, total, cap, low).len() > 0 ==> total > cap,
        forall|k: int|
            0 <= k < eviction(units, total, cap, low).len() ==> after_evicting(
                total,
                #[trigger] eviction(units, total, cap, low).take(k),
            ) > low,
        total > cap ==> (eviction(units, total, cap, low).len() == lru_candidates(units).len()
            || after_evicting(total, eviction(units, total, cap, low)) <= low),
        forall|i: int|
            0 <= i < eviction(units, total, cap, low).len() ==> !(#[trigger] eviction(
                units,
                total,
                cap,
                low,
            )[i]).is_locked,
{
    let e = eviction(units, total, cap, low);
    if total > cap {
        let c = lru_candidates(units);
        let n = stop_index(c, total, low, 0) as int;
        lemma_stop_index(c, total, low, 0);
        lemma_unlocked(units);
        assert forall|k: int| 0 <= k < e.len() implies after_evicting(
            total,
            #[trigger] e.take(k),
        ) > low by {
            assert(e.take(k) =~= c.take(k));
            lemma_stop_index_above(c, total, low, 0, k as nat);
        }
        assert forall|i: int| 0 <= i < e.len() implies !(#[trigger] e[i]).is_locked by {
            lemma_oldest_first_contains(unlocked(units), i);
            let k = choose|k: int| 0 <= k < unlocked(units).len() && unlocked(units)[k] == e[i];
            assert(!unlocked(units)[k].is_locked);
        }
        if n < c.len() {
            assert(e =~= c.take(n));
        }
    }
}

} // verus!
