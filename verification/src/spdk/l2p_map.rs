//! The L2P table as a vector of `(range, location)` entries kept sorted by
//! range (by start, then by end), seen as a map from ranges to locations.

use vstd::prelude::*;

use crate::spdk::metadata_engine::{ranges_overlap, LbaRange, StripeLocation};

verus! {

/// One entry of the L2P table.
pub type L2pEntry = (LbaRange, StripeLocation);

/// Order of ranges used by the table: by start, then by end.
pub open spec fn range_lt(a: LbaRange, b: LbaRange) -> bool {
    a.start < b.start || (a.start == b.start && a.end < b.end)
}

/// The entries are strictly ascending by range, so no range occurs twice.
pub open spec fn sorted_entries(s: Seq<L2pEntry>) -> bool {
    forall|i: int, j: int| 0 <= i < j < s.len() ==> range_lt(#[trigger] s[i].0, #[trigger] s[j].0)
}

/// Whether some entry has range `k`.
pub open spec fn has_range(s: Seq<L2pEntry>, k: LbaRange) -> bool {
    exists|i: int| 0 <= i < s.len() && (#[trigger] s[i]).0 == k
}

/// The map that the entries describe.
pub open spec fn entries_map(s: Seq<L2pEntry>) -> Map<LbaRange, StripeLocation> {
    Map::new(
        |k: LbaRange| has_range(s, k),
        |k: LbaRange| s[choose|i: int| 0 <= i < s.len() && (#[trigger] s[i]).0 == k].1,
    )
}

/// In a sorted table, entry `i` is what the map holds for its range.
pub proof fn lemma_entry_in_map(s: Seq<L2pEntry>, i: int)
    requires
        sorted_entries(s),
        0 <= i < s.len(),
    ensures
        entries_map(s).dom().contains(s[i].0),
        entries_map(s)[s[i].0] == s[i].1,
{
    let k = s[i].0;
    assert(has_range(s, k));
    let j = choose|j: int| 0 <= j < s.len() && (#[trigger] s[j]).0 == k;
    if j < i {
        assert(range_lt(s[j].0, s[i].0));
    } else if i < j {
        assert(range_lt(s[i].0, s[j].0));
    }
}

/// Every range of the map is the range of some entry.
pub proof fn lemma_map_key_index(s: Seq<L2pEntry>, k: LbaRange) -> (i: int)
    requires
        sorted_entries(s),
        entries_map(s).dom().contains(k),
    ensures
        0 <= i < s.len(),
        s[i].0 == k,
        entries_map(s)[k] == s[i].1,
{
    let i = choose|i: int| 0 <= i < s.len() && (#[trigger] s[i]).0 == k;
    lemma_entry_in_map(s, i);
    i
}

/// Compares two ranges in table order.
pub fn range_less(a: &LbaRange, b: &LbaRange) -> (r: bool)
    ensures
        r == range_lt(*a, *b),
{
    a.start < b.start || (a.start == b.start && a.end < b.end)
}

/// Index of the first entry whose range is not below `k`.
pub fn find_position(v: &Vec<L2pEntry>, k: &LbaRange) -> (i: usize)
    requires
        sorted_entries(v@),
    ensures
        i <= v@.len(),
        forall|j: int| 0 <= j < i ==> range_lt(#[trigger] v@[j].0, *k),
        forall|j: int| i <= j < v@.len() ==> !range_lt(#[trigger] v@[j].0, *k),
{
    let mut lo: usize = 0;
    let mut hi: usize = v.len();
    while lo < hi
        invariant
            sorted_entries(v@),
            0 <= lo <= hi <= v@.len(),
            forall|j: int| 0 <= j < lo ==> range_lt(#[trigger] v@[j].0, *k),
            forall|j: int| hi <= j < v@.len() ==> !range_lt(#[trigger] v@[j].0, *k),
        decreases hi - lo,
    {
        let mid = lo + (hi - lo) / 2;
        if range_less(&v[mid].0, k) {
            assert forall|j: int| 0 <= j < mid + 1 implies range_lt(#[trigger] v@[j].0, *k) by {
                if j < mid {
                    assert(range_lt(v@[j].0, v@[mid as int].0));
                }
            }
            lo = mid + 1;
        } else {
            assert forall|j: int| mid <= j < v@.len() implies !range_lt(#[trigger] v@[j].0, *k) by {
                if mid < j {
                    assert(range_lt(v@[mid as int].0, v@[j].0));
                }
            }
            hi = mid;
        }
    }
    lo
}

/// What the table maps `k` to, if anything.
pub fn map_get(v: &Vec<L2pEntry>, k: &LbaRange) -> (r: Option<StripeLocation>)
    requires
        sorted_entries(v@),
    ensures
        r == if entries_map(v@).dom().contains(*k) {
            Some(entries_map(v@)[*k])
        } else {
            None::<StripeLocation>
        },
{
    let i = find_position(v, k);
    if i < v.len() && v[i].0.start == k.start && v[i].0.end == k.end {
        proof {
            lemma_entry_in_map(v@, i as int);
        }
        Some(v[i].1.duplicate())
    } else {
        proof {
            if entries_map(v@).dom().contains(*k) {
                let j = lemma_map_key_index(v@, *k);
                if j < i {
                    assert(range_lt(v@[j].0, *k));
                } else if j > i {
                    assert(range_lt(v@[i as int].0, v@[j].0));
                    assert(!range_lt(v@[i as int].0, *k));
                }
            }
        }
        None
    }
}

/// Maps `k` to `val`, replacing what `k` mapped to.
pub fn map_insert(v: &mut Vec<L2pEntry>, k: LbaRange, val: StripeLocation)
    requires
        sorted_entries(old(v)@),
    ensures
        sorted_entries(final(v)@),
        entries_map(final(v)@) == entries_map(old(v)@).insert(k, val),
{
    let i = find_position(v, &k);
    let ghost s = v@;
    if i < v.len() && v[i].0.start == k.start && v[i].0.end == k.end {
        v.set(i, (k, val));
        let ghost t = v@;
        assert(t == s.update(i as int, (k, val)));
        assert(sorted_entries(t)) by {
            assert forall|a: int, b: int| 0 <= a < b < t.len() implies range_lt(#[trigger] t[a].0, #[trigger] t[b].0) by {
                assert(range_lt(s[a].0, s[b].0));
            }
        }
        assert(entries_map(t) =~= entries_map(s).insert(k, val)) by {
            assert forall|k2: LbaRange| entries_map(t).dom().contains(k2) <==> entries_map(s).insert(k, val).dom().contains(k2) by {
                if entries_map(t).dom().contains(k2) {
                    let j = lemma_map_key_index(t, k2);
                    if j != i {
                        lemma_entry_in_map(s, j);
                    }
                }
                if entries_map(s).dom().contains(k2) {
                    let j = lemma_map_key_index(s, k2);
                    lemma_entry_in_map(t, j);
                }
                if k2 == k {
                    lemma_entry_in_map(t, i as int);
                }
            }
            assert forall|k2: LbaRange| #[trigger] entries_map(t).dom().contains(k2) implies entries_map(t)[k2]
                == entries_map(s).insert(k, val)[k2] by {
                let j = lemma_map_key_index(t, k2);
                if j != i {
                    lemma_entry_in_map(s, j);
                }
            }
        }
    } else {
        v.insert(i, (k, val));
        let ghost t = v@;
        assert(t == s.insert(i as int, (k, val)));
        assert(forall|j: int| 0 <= j < i ==> t[j] == s[j]);
        assert(forall|j: int| i < j < t.len() ==> t[j] == s[j - 1]);
        assert(t[i as int] == (k, val));
        assert(sorted_entries(t)) by {
            assert forall|a: int, b: int| 0 <= a < b < t.len() implies range_lt(#[trigger] t[a].0, #[trigger] t[b].0) by {
                if b < i {
                    assert(range_lt(s[a].0, s[b].0));
                } else if b == i {
                    assert(range_lt(s[a].0, k));
                } else if a < i {
                    assert(range_lt(s[a].0, s[b - 1].0));
                } else if a == i {
                    assert(!range_lt(s[b - 1].0, k));
                    if i < b - 1 {
                        assert(range_lt(s[i as int].0, s[b - 1].0));
                    }
                    assert(s[i as int].0 != k);
                } else {
                    assert(range_lt(s[a - 1].0, s[b - 1].0));
                }
            }
        }
        assert(entries_map(t) =~= entries_map(s).insert(k, val)) by {
            assert forall|k2: LbaRange| entries_map(t).dom().contains(k2) <==> entries_map(s).insert(k, val).dom().contains(k2) by {
                if entries_map(t).dom().contains(k2) {
                    let j = lemma_map_key_index(t, k2);
                    if j < i {
                        lemma_entry_in_map(s, j);
                    } else if j > i {
                        lemma_entry_in_map(s, j - 1);
                    }
                }
                if entries_map(s).dom().contains(k2) {
                    let j = lemma_map_key_index(s, k2);
                    if j < i {
                        lemma_entry_in_map(t, j);
                    } else {
                        lemma_entry_in_map(t, j + 1);
                    }
                }
                if k2 == k {
                    lemma_entry_in_map(t, i as int);
                }
            }
            assert forall|k2: LbaRange| #[trigger] entries_map(t).dom().contains(k2) implies entries_map(t)[k2]
                == entries_map(s).insert(k, val)[k2] by {
                let j = lemma_map_key_index(t, k2);
                if j < i {
                    lemma_entry_in_map(s, j);
                } else if j > i {
                    lemma_entry_in_map(s, j - 1);
                }
            }
        }
    }
}

/// Removes `k` and what it maps to, if present.
pub fn map_remove(v: &mut Vec<L2pEntry>, k: &LbaRange)
    requires
        sorted_entries(old(v)@),
    ensures
        sorted_entries(final(v)@),
        entries_map(final(v)@) == entries_map(old(v)@).remove(*k),
{
    let i = find_position(v, k);
    let ghost s = v@;
    if i < v.len() && v[i].0.start == k.start && v[i].0.end == k.end {
        let _ = v.remove(i);
        let ghost t = v@;
        assert(t == s.remove(i as int));
        assert(forall|j: int| 0 <= j < i ==> t[j] == s[j]);
        assert(forall|j: int| i <= j < t.len() ==> t[j] == s[j + 1]);
        assert(sorted_entries(t)) by {
            assert forall|a: int, b: int| 0 <= a < b < t.len() implies range_lt(#[trigger] t[a].0, #[trigger] t[b].0) by {
                if b < i {
                    assert(range_lt(s[a].0, s[b].0));
                } else if a < i {
                    assert(range_lt(s[a].0, s[b + 1].0));
                } else {
                    assert(range_lt(s[a + 1].0, s[b + 1].0));
                }
            }
        }
        assert(entries_map(t) =~= entries_map(s).remove(*k)) by {
            assert forall|k2: LbaRange| entries_map(t).dom().contains(k2) <==> entries_map(s).remove(*k).dom().contains(k2) by {
                if entries_map(t).dom().contains(k2) {
                    let j = lemma_map_key_index(t, k2);
                    if j < i {
                        lemma_entry_in_map(s, j);
                        assert(range_lt(s[j].0, s[i as int].0));
                    } else {
                        lemma_entry_in_map(s, j + 1);
                        assert(range_lt(s[i as int].0, s[j + 1].0));
                    }
                }
                if entries_map(s).dom().contains(k2) && k2 != *k {
                    let j = lemma_map_key_index(s, k2);
                    if j < i {
                        lemma_entry_in_map(t, j);
                    } else {
                        assert(j != i);
                        lemma_entry_in_map(t, j - 1);
                    }
                }
            }
            assert forall|k2: LbaRange| #[trigger] entries_map(t).dom().contains(k2) implies entries_map(t)[k2]
                == entries_map(s).remove(*k)[k2] by {
                let j = lemma_map_key_index(t, k2);
                if j < i {
                    lemma_entry_in_map(s, j);
                } else {
                    lemma_entry_in_map(s, j + 1);
                }
            }
        }
    } else {
        proof {
            if entries_map(s).dom().contains(*k) {
                let j = lemma_map_key_index(s, *k);
                if j < i {
                    assert(range_lt(s[j].0, *k));
                } else if j > i {
                    assert(range_lt(s[i as int].0, s[j].0));
                    assert(!range_lt(s[i as int].0, *k));
                }
            }
            assert(entries_map(s).remove(*k) =~= entries_map(s));
        }
    }
}

/// In a sorted table the starts never decrease.
pub proof fn lemma_starts_ascend(s: Seq<L2pEntry>, i: int, j: int)
    requires
        sorted_entries(s),
        0 <= i <= j < s.len(),
    ensures
        s[i].0.start <= s[j].0.start,
{
    if i < j {
        assert(range_lt(s[i].0, s[j].0));
    }
}

/// Index of the first entry that starts after `lba`.
pub fn upper_position(v: &Vec<L2pEntry>, lba: u64) -> (p: usize)
    requires
        sorted_entries(v@),
    ensures
        p <= v@.len(),
        forall|j: int| 0 <= j < p ==> (#[trigger] v@[j]).0.start <= lba,
        forall|j: int| p <= j < v@.len() ==> (#[trigger] v@[j]).0.start > lba,
{
    let mut lo: usize = 0;
    let mut hi: usize = v.len();
    while lo < hi
        invariant
            sorted_entries(v@),
            0 <= lo <= hi <= v@.len(),
            forall|j: int| 0 <= j < lo ==> (#[trigger] v@[j]).0.start <= lba,
            forall|j: int| hi <= j < v@.len() ==> (#[trigger] v@[j]).0.start > lba,
        decreases hi - lo,
    {
        let mid = lo + (hi - lo) / 2;
        if v[mid].0.start <= lba {
            assert forall|j: int| 0 <= j < mid + 1 implies (#[trigger] v@[j]).0.start <= lba by {
                lemma_starts_ascend(v@, j, mid as int);
            }
            lo = mid + 1;
        } else {
            assert forall|j: int| mid <= j < v@.len() implies (#[trigger] v@[j]).0.start > lba by {
                lemma_starts_ascend(v@, mid as int, j);
            }
            hi = mid;
        }
    }
    lo
}

/// `k` is the greatest range of `m` (in table order) that starts at or before `lba`.
pub open spec fn is_floor_range(m: Map<LbaRange, StripeLocation>, lba: u64, k: LbaRange) -> bool {
    &&& m.dom().contains(k)
    &&& k.start <= lba
    &&& forall|k2: LbaRange| #[trigger] m.dom().contains(k2) && k2.start <= lba ==> !range_lt(k, k2)
}

/// Point lookup: the greatest range starting at or before `lba`, with its
/// location, if that range holds `lba`.
pub open spec fn floor_lookup(m: Map<LbaRange, StripeLocation>, lba: u64) -> Option<L2pEntry> {
    if exists|k: LbaRange| is_floor_range(m, lba, k) {
        let k = choose|k: LbaRange| is_floor_range(m, lba, k);
        if k.start <= lba && lba < k.end {
            Some((k, m[k]))
        } else {
            None
        }
    } else {
        None
    }
}

/// Point lookup in the table.
pub fn map_floor_lookup(v: &Vec<L2pEntry>, lba: u64) -> (r: Option<L2pEntry>)
    requires
        sorted_entries(v@),
    ensures
        r == floor_lookup(entries_map(v@), lba),
{
    let p = upper_position(v, lba);
    let ghost m = entries_map(v@);
    if p == 0 {
        proof {
            if exists|k: LbaRange| is_floor_range(m, lba, k) {
                let k = choose|k: LbaRange| is_floor_range(m, lba, k);
                let j = lemma_map_key_index(v@, k);
                assert(v@[j].0.start > lba);
            }
        }
        return None;
    }
    let ghost k0 = v@[p - 1].0;
    proof {
        lemma_entry_in_map(v@, p - 1);
        assert forall|k2: LbaRange| #[trigger] m.dom().contains(k2) && k2.start <= lba implies !range_lt(k0, k2) by {
            let j = lemma_map_key_index(v@, k2);
            if j >= p {
                assert(v@[j].0.start > lba);
            } else if j < p - 1 {
                assert(range_lt(v@[j].0, v@[p - 1].0));
            }
        }
        assert(is_floor_range(m, lba, k0));
        let k = choose|k: LbaRange| is_floor_range(m, lba, k);
        assert(!range_lt(k, k0) && !range_lt(k0, k));
        assert(k == k0);
    }
    if v[p - 1].0.start <= lba && lba < v[p - 1].0.end {
        Some((v[p - 1].0, v[p - 1].1.duplicate()))
    } else {
        None
    }
}

/// Entries whose range overlaps `q`.
pub open spec fn overlaps_pred(q: LbaRange) -> spec_fn(L2pEntry) -> bool {
    |e: L2pEntry| ranges_overlap(e.0, q)
}

/// Entries that start at or before `lba`.
pub open spec fn starts_by_pred(lba: u64) -> spec_fn(L2pEntry) -> bool {
    |e: L2pEntry| e.0.start <= lba
}

/// Entries that start inside `q` and overlap it.
pub open spec fn starts_within_pred(q: LbaRange) -> spec_fn(L2pEntry) -> bool {
    |e: L2pEntry| q.start <= e.0.start && e.0.start < q.end && ranges_overlap(e.0, q)
}

/// The entries of `s` that overlap `q`, from the last to the first.
pub open spec fn overlapping_desc(s: Seq<L2pEntry>, q: LbaRange) -> Seq<L2pEntry>
    decreases s.len(),
{
    if s.len() == 0 {
        Seq::empty()
    } else {
        let rest = overlapping_desc(s.subrange(1, s.len() as int), q);
        if ranges_overlap(s[0].0, q) {
            rest.push(s[0])
        } else {
            rest
        }
    }
}

/// What a range query returns: the entries starting at or before the
/// query's start that overlap it, nearest first, followed by the entries
/// starting inside the query, in table order. An entry starting exactly at
/// the query's start occurs in both parts.
pub open spec fn range_query(s: Seq<L2pEntry>, q: LbaRange) -> Seq<L2pEntry> {
    overlapping_desc(s.filter(starts_by_pred(q.start)), q) + s.filter(starts_within_pred(q))
}

/// Filtering by a predicate that every element meets changes nothing.
pub proof fn lemma_filter_all<A>(s: Seq<A>, pred: spec_fn(A) -> bool)
    requires
        forall|i: int| 0 <= i < s.len() ==> pred(#[trigger] s[i]),
    ensures
        s.filter(pred) == s,
    decreases s.len(),
{
    reveal(Seq::filter);
    if s.len() > 0 {
        lemma_filter_all(s.drop_last(), pred);
        assert(s.drop_last().push(s.last()) =~= s);
    }
}

/// Filtering by a predicate that no element meets leaves nothing.
pub proof fn lemma_filter_none<A>(s: Seq<A>, pred: spec_fn(A) -> bool)
    requires
        forall|i: int| 0 <= i < s.len() ==> !pred(#[trigger] s[i]),
    ensures
        s.filter(pred) == Seq::<A>::empty(),
    decreases s.len(),
{
    reveal(Seq::filter);
    if s.len() > 0 {
        lemma_filter_none(s.drop_last(), pred);
    }
}

/// Filtering a sequence with one more element at the end.
pub proof fn lemma_filter_push<A>(s: Seq<A>, x: A, pred: spec_fn(A) -> bool)
    ensures
        s.push(x).filter(pred) == if pred(x) {
            s.filter(pred).push(x)
        } else {
            s.filter(pred)
        },
{
    reveal(Seq::filter);
    assert(s.push(x).drop_last() =~= s);
}

/// The entries whose range overlaps `r`, in table order.
pub fn collect_overlapping(v: &Vec<L2pEntry>, r: &LbaRange) -> (out: Vec<L2pEntry>)
    ensures
        out@ == v@.filter(overlaps_pred(*r)),
{
    let mut out: Vec<L2pEntry> = Vec::new();
    let mut i: usize = 0;
    while i < v.len()
        invariant
            0 <= i <= v@.len(),
            out@ == v@.subrange(0, i as int).filter(overlaps_pred(*r)),
        decreases v@.len() - i,
    {
        proof {
            lemma_filter_push(v@.subrange(0, i as int), v@[i as int], overlaps_pred(*r));
            assert(v@.subrange(0, i + 1) =~= v@.subrange(0, i as int).push(v@[i as int]));
        }
        if v[i].0.overlaps(r) {
            out.push((v[i].0, v[i].1.duplicate()));
        }
        i += 1;
    }
    assert(v@.subrange(0, v@.len() as int) =~= v@);
    out
}

/// The entries among the first `p` that overlap `q`, from the last to the first.
fn collect_backward(v: &Vec<L2pEntry>, q: &LbaRange, p: usize) -> (out: Vec<L2pEntry>)
    requires
        p <= v@.len(),
    ensures
        out@ == overlapping_desc(v@.subrange(0, p as int), *q),
{
    let mut out: Vec<L2pEntry> = Vec::new();
    let mut i: usize = p;
    while i > 0
        invariant
            0 <= i <= p <= v@.len(),
            out@ == overlapping_desc(v@.subrange(i as int, p as int), *q),
        decreases i,
    {
        proof {
            assert(v@.subrange(i - 1, p as int).subrange(1, (p - i + 1) as int) =~= v@.subrange(i as int, p as int));
            assert(v@.subrange(i - 1, p as int)[0] == v@[i - 1]);
        }
        if v[i - 1].0.overlaps(q) {
            out.push((v[i - 1].0, v[i - 1].1.duplicate()));
        }
        i -= 1;
    }
    out
}

/// The entries from index `a` on that start inside `q` and overlap it, up
/// to the first entry starting at or after the query's end.
fn collect_forward(v: &Vec<L2pEntry>, q: &LbaRange, a: usize) -> (r: (Vec<L2pEntry>, usize))
    requires
        a <= v@.len(),
    ensures
        a <= r.1 <= v@.len(),
        r.1 < v@.len() ==> v@[r.1 as int].0.start >= q.end,
        r.0@ == v@.subrange(a as int, r.1 as int).filter(starts_within_pred(*q)),
{
    let mut out: Vec<L2pEntry> = Vec::new();
    let mut j: usize = a;
    while j < v.len() && v[j].0.start < q.end
        invariant
            0 <= a <= j <= v@.len(),
            out@ == v@.subrange(a as int, j as int).filter(starts_within_pred(*q)),
        decreases v@.len() - j,
    {
        proof {
            lemma_filter_push(v@.subrange(a as int, j as int), v@[j as int], starts_within_pred(*q));
            assert(v@.subrange(a as int, j + 1) =~= v@.subrange(a as int, j as int).push(v@[j as int]));
        }
        if v[j].0.overlaps(q) && v[j].0.start >= q.start {
            out.push((v[j].0, v[j].1.duplicate()));
        }
        j += 1;
    }
    (out, j)
}

/// The prefix of entries starting at or before `lba` is their filter.
proof fn lemma_prefix_filter(s: Seq<L2pEntry>, p: int, lba: u64)
    requires
        0 <= p <= s.len(),
        forall|j: int| 0 <= j < p ==> (#[trigger] s[j]).0.start <= lba,
        forall|j: int| p <= j < s.len() ==> (#[trigger] s[j]).0.start > lba,
    ensures
        s.filter(starts_by_pred(lba)) == s.subrange(0, p),
{
    let pre = s.subrange(0, p);
    let post = s.subrange(p, s.len() as int);
    assert(s =~= pre + post);
    Seq::filter_distributes_over_add(pre, post, starts_by_pred(lba));
    lemma_filter_all(pre, starts_by_pred(lba));
    lemma_filter_none(post, starts_by_pred(lba));
    assert(pre + Seq::<L2pEntry>::empty() =~= pre);
}

/// Entries before `a` start before the query and entries from `j` on start
/// at or after its end, so only those in between can start inside it.
proof fn lemma_window_filter(s: Seq<L2pEntry>, q: LbaRange, a: int, j: int)
    requires
        sorted_entries(s),
        0 <= a <= j <= s.len(),
        forall|k: int| 0 <= k < a ==> range_lt(#[trigger] s[k].0, LbaRange { start: q.start, end: 0 }),
        j < s.len() ==> s[j].0.start >= q.end,
    ensures
        s.filter(starts_within_pred(q)) == s.subrange(a, j).filter(starts_within_pred(q)),
{
    let pre = s.subrange(0, a);
    let mid = s.subrange(a, j);
    let post = s.subrange(j, s.len() as int);
    assert(s =~= pre + mid + post);
    Seq::filter_distributes_over_add(pre + mid, post, starts_within_pred(q));
    Seq::filter_distributes_over_add(pre, mid, starts_within_pred(q));
    assert forall|k: int| 0 <= k < pre.len() implies !(starts_within_pred(q))(#[trigger] pre[k]) by {
        assert(range_lt(s[k].0, LbaRange { start: q.start, end: 0 }));
    }
    lemma_filter_none(pre, starts_within_pred(q));
    assert forall|k: int| 0 <= k < post.len() implies !(starts_within_pred(q))(#[trigger] post[k]) by {
        lemma_starts_ascend(s, j, j + k);
    }
    lemma_filter_none(post, starts_within_pred(q));
    assert(Seq::<L2pEntry>::empty() + mid.filter(starts_within_pred(q)) + Seq::<L2pEntry>::empty()
        =~= mid.filter(starts_within_pred(q)));
}

/// Range query over the table.
pub fn map_range_query(v: &Vec<L2pEntry>, q: &LbaRange) -> (out: Vec<L2pEntry>)
    requires
        sorted_entries(v@),
    ensures
        out@ == range_query(v@, *q),
{
    let p = upper_position(v, q.start);
    let mut out = collect_backward(v, q, p);
    let a = find_position(v, &LbaRange { start: q.start, end: 0 });
    let (mut forward, j) = collect_forward(v, q, a);
    proof {
        lemma_prefix_filter(v@, p as int, q.start);
        lemma_window_filter(v@, *q, a as int, j as int);
    }
    out.append(&mut forward);
    out
}

/// The map after cutting `r` out of each of `olds`, in order: each old range
/// is removed, and its parts before and after `r`, where there are any, are
/// mapped to its location again.
pub open spec fn trim_overlaps(m: Map<LbaRange, StripeLocation>, olds: Seq<L2pEntry>, r: LbaRange) -> Map<
    LbaRange,
    StripeLocation,
>
    decreases olds.len(),
{
    if olds.len() == 0 {
        m
    } else {
        let e = olds.last();
        let m1 = trim_overlaps(m, olds.drop_last(), r).remove(e.0);
        let m2 = if e.0.start < r.start {
            m1.insert(LbaRange { start: e.0.start, end: r.start }, e.1)
        } else {
            m1
        };
        if e.0.end > r.end {
            m2.insert(LbaRange { start: r.end, end: e.0.end }, e.1)
        } else {
            m2
        }
    }
}

/// After trimming, a range is either an untouched range of the map that is
/// none of `olds`, or a non-empty piece that does not overlap `r`.
pub proof fn lemma_trim_keys(m: Map<LbaRange, StripeLocation>, olds: Seq<L2pEntry>, r: LbaRange, k: LbaRange)
    requires
        trim_overlaps(m, olds, r).dom().contains(k),
    ensures
        (m.dom().contains(k) && forall|j: int| 0 <= j < olds.len() ==> (#[trigger] olds[j]).0 != k)
            || (!ranges_overlap(k, r) && k.start < k.end),
    decreases olds.len(),
{
    if olds.len() > 0 {
        let e = olds.last();
        let t = trim_overlaps(m, olds.drop_last(), r);
        let before = LbaRange { start: e.0.start, end: r.start };
        let after = LbaRange { start: r.end, end: e.0.end };
        if !((e.0.start < r.start && k == before) || (e.0.end > r.end && k == after)) {
            assert(t.dom().contains(k) && k != e.0);
            lemma_trim_keys(m, olds.drop_last(), r, k);
            if m.dom().contains(k) && forall|j: int| 0 <= j < olds.len() - 1 ==> (#[trigger] olds.drop_last()[j]).0 != k {
                assert forall|j: int| 0 <= j < olds.len() implies (#[trigger] olds[j]).0 != k by {
                    if j < olds.len() - 1 {
                        assert(olds.drop_last()[j] == olds[j]);
                    }
                }
            }
        }
    }
}

/// Trimming never touches a range that none of `olds` has.
pub proof fn lemma_trim_keeps(m: Map<LbaRange, StripeLocation>, olds: Seq<L2pEntry>, r: LbaRange, k: LbaRange)
    requires
        m.dom().contains(k),
        !ranges_overlap(k, r) || k.start >= k.end,
        forall|j: int| 0 <= j < olds.len() ==> (#[trigger] olds[j]).0 != k,
    ensures
        trim_overlaps(m, olds, r).dom().contains(k),
    decreases olds.len(),
{
    if olds.len() > 0 {
        assert forall|j: int| 0 <= j < olds.len() - 1 implies (#[trigger] olds.drop_last()[j]).0 != k by {
            assert(olds.drop_last()[j] == olds[j]);
        }
        lemma_trim_keeps(m, olds.drop_last(), r, k);
        assert(olds[olds.len() - 1].0 != k);
    }
}

/// `k` is what is left of `e` on one side of `r`.
pub open spec fn is_piece(k: LbaRange, e: LbaRange, r: LbaRange) -> bool {
    ||| (e.start < r.start && k == LbaRange { start: e.start, end: r.start })
    ||| (e.end > r.end && k == LbaRange { start: r.end, end: e.end })
}

/// After trimming, a range is either an untouched range of the map that is
/// none of `olds`, or a piece of one of `olds` beside `r`.
pub proof fn lemma_trim_origin(m: Map<LbaRange, StripeLocation>, olds: Seq<L2pEntry>, r: LbaRange, k: LbaRange)
    requires
        trim_overlaps(m, olds, r).dom().contains(k),
    ensures
        (m.dom().contains(k) && forall|j: int| 0 <= j < olds.len() ==> (#[trigger] olds[j]).0 != k)
            || exists|j: int| 0 <= j < olds.len() && is_piece(k, (#[trigger] olds[j]).0, r),
    decreases olds.len(),
{
    if olds.len() > 0 {
        let n = olds.len() - 1;
        let e = olds.last();
        if is_piece(k, e.0, r) {
            assert(is_piece(k, olds[n].0, r));
        } else {
            lemma_trim_origin(m, olds.drop_last(), r, k);
            if m.dom().contains(k) && forall|j: int| 0 <= j < n ==> (#[trigger] olds.drop_last()[j]).0 != k {
                assert forall|j: int| 0 <= j < olds.len() implies (#[trigger] olds[j]).0 != k by {
                    if j < n {
                        assert(olds.drop_last()[j] == olds[j]);
                    }
                }
            } else {
                let j = choose|j: int| 0 <= j < n && is_piece(k, (#[trigger] olds.drop_last()[j]).0, r);
                assert(olds.drop_last()[j] == olds[j]);
            }
        }
    }
}

} // verus!
