//! What the measurement of a hold computes: unit sizes and ages, and the
//! oldest-first order in which units are listed.

use vstd::prelude::*;
use vstd::string::StringExecFns;
use crate::unit::{Unit, total_bytes, lemma_total_bytes_concat};

verus! {

broadcast use vstd::seq_lib::group_to_multiset_ensures;

/// Where `x` goes in `s` when inserted after every unit that is at most as
/// old as `x`, scanning from the back (the insertion step of a stable sort).
pub open spec fn age_slot(s: Seq<Unit>, x: Unit) -> int
    decreases s.len(),
{
    if s.len() == 0 {
        0
    } else if s.last().last_used <= x.last_used {
        s.len() as int
    } else {
        age_slot(s.drop_last(), x)
    }
}

/// `s` stably sorted by `last_used`, oldest first: units with equal times keep
/// their relative order.
pub open spec fn oldest_first(s: Seq<Unit>) -> Seq<Unit>
    decreases s.len(),
{
    if s.len() == 0 {
        s
    } else {
        let r = oldest_first(s.drop_last());
        r.insert(age_slot(r, s.last()), s.last())
    }
}

/// Every unit in `s` is at most as old as every later one.
pub open spec fn is_oldest_first(s: Seq<Unit>) -> bool {
    forall|i: int, j: int| 0 <= i <= j < s.len() ==> s[i].last_used <= s[j].last_used
}

proof fn lemma_age_slot_bounds(s: Seq<Unit>, x: Unit)
    ensures
        0 <= age_slot(s, x) <= s.len(),
        forall|j: int| age_slot(s, x) <= j < s.len() ==> s[j].last_used > x.last_used,
        age_slot(s, x) == 0 || s[age_slot(s, x) - 1].last_used <= x.last_used,
    decreases s.len(),
{
    if s.len() > 0 && s.last().last_used > x.last_used {
        lemma_age_slot_bounds(s.drop_last(), x);
        assert forall|j: int| age_slot(s, x) <= j < s.len() implies s[j].last_used
            > x.last_used by {
            if j < s.len() - 1 {
                assert(s[j] == s.drop_last()[j]);
            }
        }
    }
}

/// A position with only younger units after it and an older-or-equal unit
/// (or nothing) before it is the slot.
proof fn lemma_age_slot_unique(s: Seq<Unit>, x: Unit, pos: int)
    requires
        0 <= pos <= s.len(),
        forall|j: int| pos <= j < s.len() ==> s[j].last_used > x.last_used,
        pos == 0 || s[pos - 1].last_used <= x.last_used,
    ensures
        age_slot(s, x) == pos,
    decreases s.len(),
{
    if s.len() > 0 && s.last().last_used > x.last_used {
        lemma_age_slot_unique(s.drop_last(), x, pos);
    }
}

proof fn lemma_insert_sorted(s: Seq<Unit>, x: Unit)
    requires
        is_oldest_first(s),
    ensures
        is_oldest_first(s.insert(age_slot(s, x), x)),
{
    lemma_age_slot_bounds(s, x);
    let p = age_slot(s, x);
    let t = s.insert(p, x);
    assert forall|i: int, j: int| 0 <= i <= j < t.len() implies t[i].last_used <= t[j].last_used by {
        if p > 0 {
            assert(s[p - 1].last_used <= x.last_used);
        }
        if i < p && j > p {
            assert(s[i].last_used <= s[j - 1].last_used);
        }
    }
}

/// Sorting yields an oldest-first list holding exactly the same units.
pub proof fn lemma_oldest_first(s: Seq<Unit>)
    ensures
        is_oldest_first(oldest_first(s)),
        oldest_first(s).to_multiset() == s.to_multiset(),
        oldest_first(s).len() == s.len(),
        total_bytes(oldest_first(s)) == total_bytes(s),
    decreases s.len(),
{
    if s.len() > 0 {
        let r = oldest_first(s.drop_last());
        lemma_oldest_first(s.drop_last());
        lemma_age_slot_bounds(r, s.last());
        lemma_insert_sorted(r, s.last());
        let p = age_slot(r, s.last());
        assert(s =~= s.drop_last().push(s.last()));
        // sizes: the insertion splits `r` around the new unit
        assert(r =~= r.take(p) + r.skip(p));
        assert(r.insert(p, s.last()) =~= r.take(p).push(s.last()) + r.skip(p));
        lemma_total_bytes_concat(r.take(p), r.skip(p));
        lemma_total_bytes_concat(r.take(p).push(s.last()), r.skip(p));
        assert(r.take(p).push(s.last()).drop_last() =~= r.take(p));
    }
}

/// Every unit of an oldest-first list comes from the original list.
pub proof fn lemma_oldest_first_contains(s: Seq<Unit>, i: int)
    requires
        0 <= i < oldest_first(s).len(),
    ensures
        s.contains(oldest_first(s)[i]),
{
    lemma_oldest_first(s);
    let u = oldest_first(s)[i];
    assert(oldest_first(s).contains(u));
    assert(oldest_first(s).to_multiset().count(u) > 0);
}

/// The units of `s` last used at time `t`, in their order in `s`.
pub open spec fn with_time(s: Seq<Unit>, t: int) -> Seq<Unit>
    decreases s.len(),
{
    if s.len() == 0 {
        Seq::empty()
    } else if s.last().last_used == t {
        with_time(s.drop_last(), t).push(s.last())
    } else {
        with_time(s.drop_last(), t)
    }
}

proof fn lemma_with_time_concat(a: Seq<Unit>, b: Seq<Unit>, t: int)
    ensures
        with_time(a + b, t) == with_time(a, t) + with_time(b, t),
    decreases b.len(),
{
    if b.len() == 0 {
        assert(a + b =~= a);
        assert(with_time(a, t) + with_time(b, t) =~= with_time(a, t));
    } else {
        lemma_with_time_concat(a, b.drop_last(), t);
        assert((a + b).drop_last() =~= a + b.drop_last());
        assert(with_time(a, t) + with_time(b.drop_last(), t).push(b.last()) =~= (with_time(a, t)
            + with_time(b.drop_last(), t)).push(b.last()));
    }
}

proof fn lemma_with_time_younger(b: Seq<Unit>, t: int)
    requires
        forall|j: int| 0 <= j < b.len() ==> b[j].last_used > t,
    ensures
        with_time(b, t) == Seq::<Unit>::empty(),
    decreases b.len(),
{
    if b.len() > 0 {
        assert(b.last().last_used > t);
        lemma_with_time_younger(b.drop_last(), t);
    }
}

/// Sorting is stable: the units last used at any one time keep their order.
pub proof fn lemma_oldest_first_stable(s: Seq<Unit>, t: int)
    ensures
        with_time(oldest_first(s), t) == with_time(s, t),
    decreases s.len(),
{
    if s.len() > 0 {
        let r = oldest_first(s.drop_last());
        let x = s.last();
        lemma_oldest_first_stable(s.drop_last(), t);
        lemma_age_slot_bounds(r, x);
        let p = age_slot(r, x);
        assert(r =~= r.take(p) + r.skip(p));
        assert(r.insert(p, x) =~= (r.take(p) + seq![x]) + r.skip(p));
        lemma_with_time_concat(r.take(p), r.skip(p), t);
        lemma_with_time_concat(r.take(p) + seq![x], r.skip(p), t);
        lemma_with_time_concat(r.take(p), seq![x], t);
        assert(seq![x].drop_last() =~= Seq::<Unit>::empty());
        assert(seq![x].last() == x);
        assert(with_time(Seq::<Unit>::empty(), t) =~= Seq::<Unit>::empty());
        assert(with_time(seq![x].drop_last(), t) =~= Seq::<Unit>::empty());
        if x.last_used == t {
            lemma_with_time_younger(r.skip(p), t);
            assert(with_time(seq![x], t) =~= seq![x]);
            assert(with_time(r.take(p), t) + with_time(r.skip(p), t) =~= with_time(r.take(p), t));
            assert((with_time(r.take(p), t) + seq![x]) + Seq::<Unit>::empty() =~= with_time(
                r.take(p),
                t,
            ).push(x));
        } else {
            assert(with_time(seq![x], t) =~= Seq::<Unit>::empty());
            assert(with_time(r.take(p), t) + Seq::<Unit>::empty() =~= with_time(r.take(p), t));
        }
    }
}

/// Inserts `x` into `sorted` after every unit at most as old as `x`.
fn insert_by_age(sorted: &mut Vec<Unit>, x: Unit)
    ensures
        final(sorted)@ == old(sorted)@.insert(age_slot(old(sorted)@, x), x),
{
    let mut pos: usize = sorted.len();
    while pos > 0 && sorted[pos - 1].last_used > x.last_used
        invariant
            pos <= sorted@.len(),
            forall|j: int| pos <= j < sorted@.len() ==> sorted@[j].last_used > x.last_used,
        decreases pos,
    {
        pos = pos - 1;
    }
    proof {
        lemma_age_slot_unique(sorted@, x, pos as int);
    }
    sorted.insert(pos, x);
}

/// Orders units oldest-first (lowest `last_used` first), keeping the order of
/// units with equal times, so that the front of the list is evicted first.
pub fn sort_oldest_first(units: &[Unit]) -> (r: Vec<Unit>)
    ensures
        r@ == oldest_first(units@),
        is_oldest_first(r@),
        r@.to_multiset() == units@.to_multiset(),
        // stable: units last used at the same time keep their order
        forall|t: int| #[trigger] with_time(r@, t) == with_time(units@, t),
{
    let mut sorted: Vec<Unit> = Vec::new();
    let mut i: usize = 0;
    while i < units.len()
        invariant
            i <= units@.len(),
            sorted@ == oldest_first(units@.take(i as int)),
        decreases units@.len() - i,
    {
        assert(units@.take(i + 1).drop_last() =~= units@.take(i as int));
        insert_by_age(&mut sorted, units[i].clone());
        i = i + 1;
    }
    assert(units@.take(i as int) =~= units@);
    proof {
        lemma_oldest_first(units@);
        assert forall|t: int| #[trigger] with_time(sorted@, t) == with_time(units@, t) by {
            lemma_oldest_first_stable(units@, t);
        }
    }
    sorted
}

/// Sum of the sizes of a unit's files, each given as (bytes, modified).
pub open spec fn file_bytes(files: Seq<(u64, i128)>) -> int
    decreases files.len(),
{
    if files.len() == 0 {
        0
    } else {
        file_bytes(files.drop_last()) + files.last().0
    }
}

/// The most recent modification time of a unit's files, never earlier than
/// the Unix epoch (0), which also stands for a unit without files.
pub open spec fn newest_mtime(files: Seq<(u64, i128)>) -> int
    decreases files.len(),
{
    if files.len() == 0 {
        0
    } else if files.last().1 > newest_mtime(files.drop_last()) {
        files.last().1 as int
    } else {
        newest_mtime(files.drop_last())
    }
}

/// Sums the sizes of a directory's files and finds their most recent
/// modification time (starting from the Unix epoch). `None` when the sum
/// does not fit in a `u64`.
pub fn size_and_mtime(files: &[(u64, i128)]) -> (r: Option<(u64, i128)>)
    ensures
        match r {
            Some((total, newest)) => {
                &&& total == file_bytes(files@)
                &&& newest == newest_mtime(files@)
                // the newest time is the latest file time, or the epoch
                &&& newest >= 0
                &&& forall|i: int| 0 <= i < files@.len() ==> (#[trigger] files@[i]).1 <= newest
                &&& (newest == 0 || exists|i: int| 0 <= i < files@.len() && (#[trigger] files@[i]).1
                    == newest)
            },
            None => file_bytes(files@) > u64::MAX,
        },
{
    let mut total: u64 = 0;
    let mut newest: i128 = 0;
    let mut i: usize = 0;
    while i < files.len()
        invariant
            i <= files@.len(),
            total == file_bytes(files@.take(i as int)),
            newest == newest_mtime(files@.take(i as int)),
        decreases files@.len() - i,
    {
        assert(files@.take(i + 1).drop_last() =~= files@.take(i as int));
        let (len, mtime) = files[i];
        match total.checked_add(len) {
            Some(t) => {
                total = t;
            },
            None => {
                proof {
                    lemma_file_bytes_prefix(files@, i + 1);
                }
                return None;
            },
        }
        if mtime > newest {
            newest = mtime;
        }
        i = i + 1;
    }
    assert(files@.take(i as int) =~= files@);
    proof {
        lemma_newest_mtime_is_latest(files@);
    }
    Some((total, newest))
}

/// The size of a unit's files adds up over concatenation.
pub proof fn lemma_file_bytes_concat(a: Seq<(u64, i128)>, b: Seq<(u64, i128)>)
    ensures
        file_bytes(a + b) == file_bytes(a) + file_bytes(b),
    decreases b.len(),
{
    if b.len() == 0 {
        assert(a + b =~= a);
    } else {
        lemma_file_bytes_concat(a, b.drop_last());
        assert((a + b).drop_last() =~= a + b.drop_last());
    }
}

/// A single file weighs its own length.
pub proof fn lemma_file_bytes_single(f: (u64, i128))
    ensures
        file_bytes(seq![f]) == f.0,
{
    assert(seq![f].drop_last() =~= Seq::<(u64, i128)>::empty());
    assert(seq![f].last() == f);
    assert(file_bytes(Seq::<(u64, i128)>::empty()) == 0);
    assert(file_bytes(seq![f].drop_last()) == 0);
}

proof fn lemma_file_bytes_prefix(files: Seq<(u64, i128)>, k: int)
    requires
        0 <= k <= files.len(),
    ensures
        file_bytes(files.take(k)) <= file_bytes(files),
    decreases files.len() - k,
{
    if k < files.len() {
        lemma_file_bytes_prefix(files, k + 1);
        assert(files.take(k + 1).drop_last() =~= files.take(k));
    } else {
        assert(files.take(k) =~= files);
    }
}

/// The directories of a hold whose entries are evictable units, as
/// (profile, subdirectory) pairs, in the order they are listed.
pub fn evictable_subdirs() -> (r: Vec<(String, String)>)
    ensures
        r@.len() == 6,
        r@[0].0@ == "debug"@ && r@[0].1@ == "deps"@,
        r@[1].0@ == "debug"@ && r@[1].1@ == ".fingerprint"@,
        r@[2].0@ == "debug"@ && r@[2].1@ == "incremental"@,
        r@[3].0@ == "release"@ && r@[3].1@ == "deps"@,
        r@[4].0@ == "release"@ && r@[4].1@ == ".fingerprint"@,
        r@[5].0@ == "release"@ && r@[5].1@ == "incremental"@,
{
    let mut r: Vec<(String, String)> = Vec::new();
    r.push((String::from_str("debug"), String::from_str("deps")));
    r.push((String::from_str("debug"), String::from_str(".fingerprint")));
    r.push((String::from_str("debug"), String::from_str("incremental")));
    r.push((String::from_str("release"), String::from_str("deps")));
    r.push((String::from_str("release"), String::from_str(".fingerprint")));
    r.push((String::from_str("release"), String::from_str("incremental")));
    r
}

/// A unit's last use is the latest modification time among its files (the
/// epoch when there are none, or all are older): it is never below the epoch,
/// no file is newer, and unless it is the epoch some file has exactly it.
pub proof fn lemma_newest_mtime_is_latest(files: Seq<(u64, i128)>)
    ensures
        newest_mtime(files) >= 0,
        forall|i: int| 0 <= i < files.len() ==> (#[trigger] files[i]).1 <= newest_mtime(files),
        newest_mtime(files) == 0 || exists|i: int|
            0 <= i < files.len() && (#[trigger] files[i]).1 == newest_mtime(files),
    decreases files.len(),
{
    if files.len() > 0 {
        let p = files.drop_last();
        lemma_newest_mtime_is_latest(p);
        assert forall|i: int| 0 <= i < files.len() implies (#[trigger] files[i]).1 <= newest_mtime(
            files,
        ) by {
            if i < files.len() - 1 {
                assert(files[i] == p[i]);
            }
        }
        if newest_mtime(files) != 0 {
            if files.last().1 > newest_mtime(p) {
                assert(files[files.len() - 1].1 == newest_mtime(files));
            } else {
                let j = choose|j: int| 0 <= j < p.len() && (#[trigger] p[j]).1 == newest_mtime(p);
                assert(files[j] == p[j]);
            }
        }
    }
}

} // verus!
