//! Linear-scan register allocation over sorted live intervals.

use vstd::prelude::*;
use crate::regalloc::{spec_overlaps, LiveInterval, RegAllocError, RegAllocResult, VirtualReg};
use crate::target::Reg;

verus! {

broadcast use vstd::seq::group_seq_axioms, vstd::seq_lib::group_to_multiset_ensures;

/// Number of allocatable physical registers: t0..t7, s0..s7 and t8..t11.
pub const POOL_SIZE: usize = 20;

/// Registers the allocator may hand out: the twenty general-purpose
/// registers r8..r27, leaving the ABI roles (zero, return address, stack
/// and frame pointer, arguments) and two rewriter scratches untouched.
pub open spec fn is_allocatable(r: Reg) -> bool {
    8 <= r.0 < 28
}

/// Map denoted by an association list keyed by virtual-register id.
pub open spec fn vmap<V>(entries: Seq<(u32, V)>) -> Map<u32, V>
    decreases entries.len(),
{
    if entries.len() == 0 {
        Map::empty()
    } else {
        vmap(entries.drop_last()).insert(entries.last().0, entries.last().1)
    }
}

/// No key appears twice.
pub open spec fn keys_distinct<V>(entries: Seq<(u32, V)>) -> bool {
    forall|a: int, b: int|
        0 <= a < b < entries.len() ==> (#[trigger] entries[a]).0 != (#[trigger] entries[b]).0
}

/// A key is in the denoted map exactly when some entry carries it.
proof fn lemma_vmap_contains<V>(entries: Seq<(u32, V)>, key: u32)
    ensures
        vmap(entries).dom().contains(key) <==> exists|j: int|
            0 <= j < entries.len() && (#[trigger] entries[j]).0 == key,
    decreases entries.len(),
{
    if entries.len() > 0 {
        lemma_vmap_contains(entries.drop_last(), key);
        if entries.last().0 == key {
            assert(entries[entries.len() - 1].0 == key);
        } else {
            if vmap(entries).dom().contains(key) {
                let j = choose|j: int|
                    0 <= j < entries.len() - 1 && (#[trigger] entries.drop_last()[j]).0 == key;
                assert(entries[j].0 == key);
            }
            if exists|j: int| 0 <= j < entries.len() && (#[trigger] entries[j]).0 == key {
                let j = choose|j: int| 0 <= j < entries.len() && (#[trigger] entries[j]).0 == key;
                assert(entries.drop_last()[j].0 == key);
            }
        }
    }
}

/// Pushing an entry updates the denoted map at exactly its key.
proof fn lemma_vmap_push<V>(entries: Seq<(u32, V)>, key: u32, v: V)
    ensures
        vmap(entries.push((key, v))) == vmap(entries).insert(key, v),
{
    let pushed = entries.push((key, v));
    assert(pushed.drop_last() =~= entries);
    assert(pushed.last() == (key, v));
}

/// With distinct keys, the entry carrying a key gives its map value.
proof fn lemma_vmap_index<V>(entries: Seq<(u32, V)>, j: int)
    requires
        keys_distinct(entries),
        0 <= j < entries.len(),
    ensures
        vmap(entries).dom().contains(entries[j].0),
        vmap(entries)[entries[j].0] == entries[j].1,
    decreases entries.len(),
{
    if j == entries.len() - 1 {
    } else {
        assert(entries.drop_last()[j] == entries[j]);
        lemma_vmap_index(entries.drop_last(), j);
        assert(entries[entries.len() - 1].0 != entries[j].0);
    }
}

/// With distinct keys, removing the entry at `idx` removes its key from the
/// denoted map.
proof fn lemma_vmap_remove_at<V>(entries: Seq<(u32, V)>, idx: int)
    requires
        keys_distinct(entries),
        0 <= idx < entries.len(),
    ensures
        vmap(entries.remove(idx)) == vmap(entries).remove(entries[idx].0),
    decreases entries.len(),
{
    let key = entries[idx].0;
    if idx == entries.len() - 1 {
        lemma_vmap_contains(entries.drop_last(), key);
        assert(entries.remove(idx) =~= entries.drop_last());
        assert(!vmap(entries.drop_last()).dom().contains(key)) by {
            if vmap(entries.drop_last()).dom().contains(key) {
                let j = choose|j: int|
                    0 <= j < entries.len() - 1 && (#[trigger] entries.drop_last()[j]).0 == key;
                assert(entries[j].0 == key);
            }
        }
        assert(vmap(entries.drop_last()).insert(key, entries[idx].1).remove(key) =~= vmap(
            entries.drop_last(),
        ));
    } else {
        let shorter = entries.drop_last();
        assert(forall|a: int, b: int|
            0 <= a < b < shorter.len() ==> (#[trigger] shorter[a]).0 != (
            #[trigger] shorter[b]).0);
        lemma_vmap_remove_at(shorter, idx);
        assert(entries.remove(idx).drop_last() =~= shorter.remove(idx));
        assert(entries.remove(idx).last() == entries.last());
        assert(entries.last().0 != key);
        assert(vmap(entries.remove(idx)) =~= vmap(entries).remove(key)) by {
            assert(vmap(entries.remove(idx)) == vmap(shorter.remove(idx)).insert(
                entries.last().0,
                entries.last().1,
            ));
            assert(vmap(shorter.remove(idx)) == vmap(shorter).remove(key));
        }
    }
}

/// Look a virtual register up in an association list.
fn vmap_get<'a, V>(entries: &'a Vec<(u32, V)>, key: u32) -> (r: Option<&'a V>)
    ensures
        match r {
            Some(v) => vmap(entries@).dom().contains(key) && *v == vmap(entries@)[key],
            None => !vmap(entries@).dom().contains(key),
        },
{
    let mut i: usize = entries.len();
    while i > 0
        invariant
            0 <= i <= entries@.len(),
            forall|j: int| i <= j < entries@.len() ==> (#[trigger] entries@[j]).0 != key,
        decreases i,
    {
        i = i - 1;
        if entries[i].0 == key {
            proof {
                lemma_vmap_frame(entries@, i + 1, key);
                let p = entries@.subrange(0, i + 1);
                assert(p.drop_last() =~= entries@.subrange(0, i as int));
                assert(p.last() == entries@[i as int]);
            }
            return Some(&entries[i].1);
        }
    }
    proof {
        lemma_vmap_frame(entries@, 0, key);
        assert(entries@.subrange(0, 0) =~= Seq::<(u32, V)>::empty());
    }
    None
}

/// Entries from position `i` on with other keys leave the denoted map
/// unchanged at `key`.
proof fn lemma_vmap_frame<V>(entries: Seq<(u32, V)>, i: int, key: u32)
    requires
        0 <= i <= entries.len(),
        forall|j: int| i <= j < entries.len() ==> (#[trigger] entries[j]).0 != key,
    ensures
        vmap(entries).dom().contains(key) == vmap(entries.subrange(0, i)).dom().contains(key),
        vmap(entries).dom().contains(key) ==> vmap(entries)[key] == vmap(
            entries.subrange(0, i),
        )[key],
    decreases entries.len() - i,
{
    if i == entries.len() {
        assert(entries.subrange(0, i) =~= entries);
    } else {
        lemma_vmap_frame(entries, i + 1, key);
        let p = entries.subrange(0, i + 1);
        assert(p.drop_last() =~= entries.subrange(0, i));
        assert(p.last() == entries[i]);
    }
}

/// Remove the entry carrying `key`, if any.
fn vmap_remove<V>(entries: &mut Vec<(u32, V)>, key: u32)
    requires
        keys_distinct(old(entries)@),
    ensures
        keys_distinct(final(entries)@),
        vmap(final(entries)@) == vmap(old(entries)@).remove(key),
        vmap(old(entries)@).dom().contains(key) ==> final(entries)@.len() == old(
            entries,
        )@.len() - 1,
        !vmap(old(entries)@).dom().contains(key) ==> final(entries)@ == old(entries)@,
        forall|k: u32|
            #[trigger] vmap(final(entries)@).dom().contains(k) ==> vmap(old(entries)@)
                .dom()
                .contains(k),
{
    let mut i: usize = 0;
    while i < entries.len()
        invariant
            keys_distinct(entries@),
            *entries == *old(entries),
            0 <= i <= entries@.len(),
            forall|j: int| 0 <= j < i ==> (#[trigger] entries@[j]).0 != key,
        decreases entries@.len() - i,
    {
        if entries[i].0 == key {
            proof {
                lemma_vmap_remove_at(entries@, i as int);
                lemma_vmap_contains(entries@, key);
            }
            entries.remove(i);
            proof {
                assert(keys_distinct(entries@)) by {
                    assert(forall|a: int, b: int|
                        0 <= a < b < entries@.len() ==> (#[trigger] entries@[a]).0 != (
                        #[trigger] entries@[b]).0) by {
                        assert(forall|a: int|
                            0 <= a < entries@.len() ==> #[trigger] entries@[a] == if a < i {
                                old(entries)@[a]
                            } else {
                                old(entries)@[a + 1]
                            });
                    }
                }
                assert(forall|k: u32|
                    #[trigger] vmap(entries@).dom().contains(k) ==> vmap(old(entries)@)
                        .dom()
                        .contains(k));
            }
            return;
        }
        i = i + 1;
    }
    proof {
        lemma_vmap_contains(entries@, key);
        assert(!vmap(entries@).dom().contains(key));
        assert(vmap(entries@).remove(key) =~= vmap(entries@));
    }
}

/// Intervals ordered by start, ties broken by virtual-register id.
pub open spec fn interval_le(a: LiveInterval, b: LiveInterval) -> bool {
    a.start < b.start || (a.start == b.start && a.vreg.0 <= b.vreg.0)
}

/// The sequence is sorted by start, ties broken by virtual-register id.
pub open spec fn intervals_sorted(s: Seq<LiveInterval>) -> bool {
    forall|i: int, j: int| 0 <= i < j < s.len() ==> interval_le(#[trigger] s[i], #[trigger] s[j])
}

/// No two intervals share a virtual register.
pub open spec fn vregs_distinct(s: Seq<LiveInterval>) -> bool {
    forall|i: int, j: int|
        0 <= i < j < s.len() ==> (#[trigger] s[i]).vreg.0 != (#[trigger] s[j]).vreg.0
}

/// Selection sort of intervals by start, ties broken by id. Keeps the
/// multiset of intervals and the distinctness of their virtual registers.
fn sort_intervals(src: &Vec<LiveInterval>) -> (out: Vec<LiveInterval>)
    ensures
        out@.to_multiset() == src@.to_multiset(),
        out@.len() == src@.len(),
        intervals_sorted(out@),
        vregs_distinct(src@) ==> vregs_distinct(out@),
{
    let ghost orig = src@;
    let ghost orig_distinct = vregs_distinct(src@);
    let mut rest: Vec<LiveInterval> = Vec::new();
    let mut c: usize = 0;
    while c < src.len()
        invariant
            0 <= c <= src@.len(),
            rest@ == src@.subrange(0, c as int),
        decreases src@.len() - c,
    {
        rest.push(src[c]);
        proof {
            assert(rest@ =~= src@.subrange(0, c + 1));
        }
        c = c + 1;
    }
    proof {
        assert(rest@ =~= src@);
    }
    let mut out: Vec<LiveInterval> = Vec::new();
    while rest.len() > 0
        invariant
            out@.to_multiset().add(rest@.to_multiset()) =~= orig.to_multiset(),
            out@.len() + rest@.len() == orig.len(),
            intervals_sorted(out@),
            forall|a: int, b: int|
                0 <= a < out@.len() && 0 <= b < rest@.len() ==> interval_le(
                    #[trigger] out@[a],
                    #[trigger] rest@[b],
                ),
            orig_distinct ==> vregs_distinct(out@) && vregs_distinct(rest@) && forall|
                a: int,
                b: int,
            |
                0 <= a < out@.len() && 0 <= b < rest@.len() ==> (#[trigger] out@[a]).vreg.0 != (
                #[trigger] rest@[b]).vreg.0,
            orig_distinct == vregs_distinct(orig),
        decreases rest@.len(),
    {
        let mut m: usize = 0;
        let mut k: usize = 1;
        while k < rest.len()
            invariant
                0 <= m < k <= rest@.len(),
                forall|x: int| 0 <= x < k ==> interval_le(rest@[m as int], #[trigger] rest@[x]),
            decreases rest@.len() - k,
        {
            let take = if rest[k].start < rest[m].start {
                true
            } else if rest[k].start == rest[m].start && rest[k].vreg.0 < rest[m].vreg.0 {
                true
            } else {
                false
            };
            if take {
                m = k;
            }
            k = k + 1;
        }
        let ghost prev_out = out@;
        let ghost prev_rest = rest@;
        let x = rest.remove(m);
        out.push(x);
        proof {
            assert(out@.to_multiset() =~= prev_out.to_multiset().insert(x));
            assert(rest@.to_multiset() =~= prev_rest.to_multiset().remove(x));
            assert(prev_rest.to_multiset().count(x) > 0);
            assert(out@.to_multiset().add(rest@.to_multiset()) =~= orig.to_multiset());
            assert forall|a: int, b: int|
                0 <= a < out@.len() && 0 <= b < rest@.len() implies interval_le(
                #[trigger] out@[a],
                #[trigger] rest@[b],
            ) by {
                assert(rest@[b] == prev_rest[if b < m { b } else { b + 1 }]);
                if a < prev_out.len() {
                    assert(out@[a] == prev_out[a]);
                } else {
                    assert(out@[a] == x);
                    assert(interval_le(prev_rest[m as int], prev_rest[if b < m {
                        b
                    } else {
                        b + 1
                    }]));
                }
            }
            assert forall|a: int, b: int| 0 <= a < b < out@.len() implies interval_le(
                #[trigger] out@[a],
                #[trigger] out@[b],
            ) by {
                if b < prev_out.len() {
                    assert(out@[a] == prev_out[a] && out@[b] == prev_out[b]);
                } else {
                    assert(out@[b] == x);
                    assert(interval_le(prev_out[a], prev_rest[m as int]));
                }
            }
            if orig_distinct {
                assert forall|a: int, b: int|
                    0 <= a < out@.len() && 0 <= b < rest@.len() implies (
                #[trigger] out@[a]).vreg.0 != (#[trigger] rest@[b]).vreg.0 by {
                    assert(rest@[b] == prev_rest[if b < m { b } else { b + 1 }]);
                    if a < prev_out.len() {
                        assert(out@[a] == prev_out[a]);
                    } else {
                        assert(out@[a] == prev_rest[m as int]);
                    }
                }
                assert forall|a: int, b: int| 0 <= a < b < out@.len() implies (
                #[trigger] out@[a]).vreg.0 != (#[trigger] out@[b]).vreg.0 by {
                    if b == prev_out.len() {
                        assert(out@[b] == prev_rest[m as int]);
                        assert(out@[a] == prev_out[a]);
                    }
                }
                assert forall|a: int, b: int| 0 <= a < b < rest@.len() implies (
                #[trigger] rest@[a]).vreg.0 != (#[trigger] rest@[b]).vreg.0 by {
                    assert(rest@[a] == prev_rest[if a < m { a } else { a + 1 }]);
                    assert(rest@[b] == prev_rest[if b < m { b } else { b + 1 }]);
                }
            }
        }
    }
    out
}


/// Every pair of distinct intervals overlaps.
pub open spec fn all_overlap(s: Seq<LiveInterval>) -> bool {
    forall|i: int, j: int|
        0 <= i < s.len() && 0 <= j < s.len() && i != j ==> spec_overlaps(
            #[trigger] s[i],
            #[trigger] s[j],
        )
}

/// A virtual register appears in the active list.
pub open spec fn in_active(active: Seq<LiveInterval>, v: u32) -> bool {
    exists|k: int| 0 <= k < active.len() && (#[trigger] active[k]).vreg.0 == v
}

/// The interval is one of the first `i` of `s`.
pub open spec fn processed_contains(s: Seq<LiveInterval>, i: int, iv: LiveInterval) -> bool {
    exists|j: int| 0 <= j < i && #[trigger] s[j] == iv
}

/// Invariant of the linear scan after `i` intervals of the sorted sequence
/// `s` have been processed, with assignment list `a`, spill list `sp`,
/// active list `active`, free pool `free` and spill counter `next_spill`.
pub open spec fn scan_inv(
    s: Seq<LiveInterval>,
    a: Seq<(u32, Reg)>,
    sp: Seq<(u32, i32)>,
    active: Seq<LiveInterval>,
    free: Seq<Reg>,
    i: int,
    next_spill: int,
) -> bool {
    let am = vmap(a);
    let sm = vmap(sp);
    &&& intervals_sorted(s)
    &&& vregs_distinct(s)
    &&& 0 <= i <= s.len()
    &&& keys_distinct(a)
    &&& keys_distinct(sp)
    // every processed interval is either assigned or spilled, never both
    &&& forall|j: int|
        0 <= j < i ==> am.dom().contains((#[trigger] s[j]).vreg.0) != sm.dom().contains(
            s[j].vreg.0,
        )
    // the maps mention only processed virtual registers
    &&& forall|v: u32|
        #[trigger] am.dom().contains(v) ==> exists|j: int|
            0 <= j < i && (#[trigger] s[j]).vreg.0 == v
    &&& forall|v: u32|
        #[trigger] sm.dom().contains(v) ==> exists|j: int|
            0 <= j < i && (#[trigger] s[j]).vreg.0 == v
    &&& a.len() + sp.len() == i
    // the active list holds processed, assigned intervals, sorted by end
    &&& forall|k: int| 0 <= k < active.len() ==> processed_contains(s, i, #[trigger] active[k])
    &&& forall|k: int|
        0 <= k < active.len() ==> am.dom().contains((#[trigger] active[k]).vreg.0)
    &&& forall|k: int, l: int|
        0 <= k < l < active.len() ==> (#[trigger] active[k]).vreg.0 != (
        #[trigger] active[l]).vreg.0
    &&& forall|k: int, l: int|
        0 <= k < l < active.len() ==> vmap(a)[(#[trigger] active[k]).vreg.0] != vmap(a)[(
        #[trigger] active[l]).vreg.0]
    &&& forall|k: int, l: int|
        0 <= k < l < active.len() ==> (#[trigger] active[k]).end <= (#[trigger] active[l]).end
    // the free pool is disjoint from the registers of the active list
    &&& forall|x: int, y: int| 0 <= x < y < free.len() ==> #[trigger] free[x] != #[trigger] free[y]
    &&& forall|x: int| 0 <= x < free.len() ==> is_allocatable(#[trigger] free[x])
    &&& forall|x: int, k: int|
        0 <= x < free.len() && 0 <= k < active.len() ==> #[trigger] free[x] != vmap(a)[(
        #[trigger] active[k]).vreg.0]
    &&& free.len() + active.len() == POOL_SIZE
    // an assigned interval that left the active list is over before any
    // unprocessed interval starts
    &&& forall|j: int|
        0 <= j < i && am.dom().contains((#[trigger] s[j]).vreg.0) && !in_active(
            active,
            s[j].vreg.0,
        ) ==> i < s.len() ==> s[j].end <= s[i].start
    // assigned overlapping intervals carry distinct registers
    &&& forall|j1: int, j2: int|
        0 <= j1 < i && 0 <= j2 < i && j1 != j2 && spec_overlaps(
            #[trigger] s[j1],
            #[trigger] s[j2],
        ) && am.dom().contains(s[j1].vreg.0) && am.dom().contains(s[j2].vreg.0) ==> am[s[j1].vreg.0]
            != am[s[j2].vreg.0]
    // assigned registers come from the allocatable pool
    &&& forall|v: u32| #[trigger] am.dom().contains(v) ==> is_allocatable(am[v])
    // spill slots are consecutive words below the frame, in decision order
    &&& next_spill == -4 * sp.len()
    &&& forall|x: int, y: int|
        0 <= x < y < sp.len() ==> (#[trigger] sp[x]).1 != (#[trigger] sp[y]).1
    &&& forall|x: int| 0 <= x < sp.len() ==> next_spill < (#[trigger] sp[x]).1 <= 0
    &&& forall|x: int| 0 <= x < sp.len() ==> (#[trigger] sp[x]).1 == -4 * x
    // no more intervals are active than have been processed
    &&& active.len() <= i
}

/// Insert an interval into the active list, keeping it sorted by end.
fn insert_active(active: &mut Vec<LiveInterval>, cur: LiveInterval)
    requires
        forall|k: int, l: int|
            0 <= k < l < old(active)@.len() ==> (#[trigger] old(active)@[k]).end <= (
            #[trigger] old(active)@[l]).end,
    ensures
        exists|p: int|
            0 <= p <= old(active)@.len() && final(active)@ == old(active)@.insert(p, cur),
        forall|k: int, l: int|
            0 <= k < l < final(active)@.len() ==> (#[trigger] final(active)@[k]).end <= (
            #[trigger] final(active)@[l]).end,
{
    let mut p: usize = 0;
    while p < active.len() && active[p].end <= cur.end
        invariant
            0 <= p <= active@.len(),
            *active == *old(active),
            forall|x: int| 0 <= x < p ==> (#[trigger] active@[x]).end <= cur.end,
        decreases active@.len() - p,
    {
        p = p + 1;
    }
    proof {
        if p < active@.len() {
            assert(forall|x: int|
                p <= x < active@.len() ==> cur.end < (#[trigger] active@[x]).end);
        }
    }
    active.insert(p, cur);
    proof {
        assert(final(active)@ == old(active)@.insert(p as int, cur));
        assert forall|k: int, l: int|
            0 <= k < l < active@.len() implies (#[trigger] active@[k]).end <= (
        #[trigger] active@[l]).end by {
            let prev = old(active)@;
            assert(active@[k] == if k < p {
                prev[k]
            } else if k == p {
                cur
            } else {
                prev[k - 1]
            });
            assert(active@[l] == if l < p {
                prev[l]
            } else if l == p {
                cur
            } else {
                prev[l - 1]
            });
        }
    }
}


/// One step of the scan in which the current interval receives a register
/// popped from the free pool and joins the active list.
#[verifier::rlimit(60)]
proof fn lemma_alloc_step(
    s: Seq<LiveInterval>,
    a0: Seq<(u32, Reg)>,
    sp0: Seq<(u32, i32)>,
    act0: Seq<LiveInterval>,
    free0: Seq<Reg>,
    i: int,
    ns: int,
    cur: LiveInterval,
    reg: Reg,
    a1: Seq<(u32, Reg)>,
    act1: Seq<LiveInterval>,
    free1: Seq<Reg>,
)
    requires
        scan_inv(s, a0, sp0, act0, free0, i, ns),
        0 <= i < s.len(),
        cur == s[i],
        forall|k: int| 0 <= k < act0.len() ==> (#[trigger] act0[k]).end > cur.start,
        forall|x: int| 0 <= x < a0.len() ==> (#[trigger] a0[x]).0 != cur.vreg.0,
        !vmap(a0).dom().contains(cur.vreg.0),
        !vmap(sp0).dom().contains(cur.vreg.0),
        forall|k: int| 0 <= k < act0.len() ==> (#[trigger] act0[k]).vreg.0 != cur.vreg.0,
        free0.len() > 0,
        reg == free0.last(),
        free1 == free0.drop_last(),
        a1 == a0.push((cur.vreg.0, reg)),
        exists|p: int| 0 <= p <= act0.len() && act1 == act0.insert(p, cur),
        forall|k: int, l: int|
            0 <= k < l < act1.len() ==> (#[trigger] act1[k]).end <= (#[trigger] act1[l]).end,
    ensures
        scan_inv(s, a1, sp0, act1, free1, i + 1, ns),
{
    let am0 = vmap(a0);
    let am1 = vmap(a1);
    lemma_vmap_push(a0, cur.vreg.0, reg);
    let p = choose|p: int| 0 <= p <= act0.len() && act1 == act0.insert(p, cur);
    act0.insert_ensures(p, cur);
    assert(keys_distinct(a1));
    // processed coverage and exclusivity
    assert forall|j: int| 0 <= j < i + 1 implies am1.dom().contains((#[trigger] s[j]).vreg.0)
        != vmap(sp0).dom().contains(s[j].vreg.0) by {
        if j < i {
            assert(s[j].vreg.0 != cur.vreg.0);
        }
    }
    assert forall|v: u32| #[trigger] am1.dom().contains(v) implies exists|j: int|
        0 <= j < i + 1 && (#[trigger] s[j]).vreg.0 == v by {
        if v == cur.vreg.0 {
            assert(s[i].vreg.0 == v);
        } else {
            assert(am0.dom().contains(v));
            let j = choose|j: int| 0 <= j < i && (#[trigger] s[j]).vreg.0 == v;
            assert(s[j].vreg.0 == v);
        }
    }
    assert forall|v: u32| #[trigger] vmap(sp0).dom().contains(v) implies exists|j: int|
        0 <= j < i + 1 && (#[trigger] s[j]).vreg.0 == v by {
        let j = choose|j: int| 0 <= j < i && (#[trigger] s[j]).vreg.0 == v;
        assert(s[j].vreg.0 == v);
    }
    // the active list
    assert forall|k: int| 0 <= k < act1.len() implies processed_contains(
        s,
        i + 1,
        #[trigger] act1[k],
    ) by {
        if k == p {
            assert(s[i] == act1[k]);
        } else {
            let e = if k < p {
                act0[k]
            } else {
                act0[k - 1]
            };
            assert(processed_contains(s, i, e));
            let j = choose|j: int| 0 <= j < i && #[trigger] s[j] == e;
            assert(s[j] == act1[k]);
        }
    }
    assert forall|k: int| 0 <= k < act1.len() implies am1.dom().contains(
        (#[trigger] act1[k]).vreg.0,
    ) by {
        if k != p {
            let e = if k < p {
                act0[k]
            } else {
                act0[k - 1]
            };
            assert(am0.dom().contains(e.vreg.0));
        }
    }
    assert forall|k: int, l: int| 0 <= k < l < act1.len() implies (#[trigger] act1[k]).vreg.0 != (
    #[trigger] act1[l]).vreg.0 by {
        if k != p && l != p {
            let ek = if k < p {
                act0[k]
            } else {
                act0[k - 1]
            };
            let el = if l < p {
                act0[l]
            } else {
                act0[l - 1]
            };
            assert(ek.vreg.0 != el.vreg.0);
        }
    }
    assert forall|k: int, l: int| 0 <= k < l < act1.len() implies vmap(a1)[(
    #[trigger] act1[k]).vreg.0] != vmap(a1)[(#[trigger] act1[l]).vreg.0] by {
        if k == p || l == p {
            let o = if k == p {
                if l < p {
                    act0[l]
                } else {
                    act0[l - 1]
                }
            } else {
                if k < p {
                    act0[k]
                } else {
                    act0[k - 1]
                }
            };
            assert(o.vreg.0 != cur.vreg.0);
            assert(am1[o.vreg.0] == am0[o.vreg.0]);
            assert(exists|x: int| 0 <= x < act0.len() && #[trigger] act0[x] == o);
            let x = choose|x: int| 0 <= x < act0.len() && #[trigger] act0[x] == o;
            assert(free0[free0.len() - 1] != am0[act0[x].vreg.0]);
        } else {
            let ek = if k < p {
                act0[k]
            } else {
                act0[k - 1]
            };
            let el = if l < p {
                act0[l]
            } else {
                act0[l - 1]
            };
            assert(ek.vreg.0 != cur.vreg.0 && el.vreg.0 != cur.vreg.0);
            assert(exists|x: int, y: int|
                0 <= x < act0.len() && 0 <= y < act0.len() && x != y && #[trigger] act0[x] == ek
                    && #[trigger] act0[y] == el);
            let (x, y) = choose|x: int, y: int|
                0 <= x < act0.len() && 0 <= y < act0.len() && x != y && #[trigger] act0[x] == ek
                    && #[trigger] act0[y] == el;
            if x < y {
                assert(am0[act0[x].vreg.0] != am0[act0[y].vreg.0]);
            } else {
                assert(am0[act0[y].vreg.0] != am0[act0[x].vreg.0]);
            }
        }
    }
    // the free pool
    assert forall|x: int, y: int| 0 <= x < y < free1.len() implies #[trigger] free1[x]
        != #[trigger] free1[y] by {
        assert(free1[x] == free0[x] && free1[y] == free0[y]);
    }
    assert forall|x: int| 0 <= x < free1.len() implies is_allocatable(#[trigger] free1[x]) by {
        assert(free1[x] == free0[x]);
    }
    assert forall|x: int, k: int|
        0 <= x < free1.len() && 0 <= k < act1.len() implies #[trigger] free1[x] != vmap(a1)[(
    #[trigger] act1[k]).vreg.0] by {
        assert(free1[x] == free0[x]);
        if k == p {
            assert(am1[cur.vreg.0] == reg);
            assert(free0[x] != free0[free0.len() - 1]);
        } else {
            let e = if k < p {
                act0[k]
            } else {
                act0[k - 1]
            };
            assert(e.vreg.0 != cur.vreg.0);
            assert(exists|z: int| 0 <= z < act0.len() && #[trigger] act0[z] == e);
            let z = choose|z: int| 0 <= z < act0.len() && #[trigger] act0[z] == e;
            assert(free0[x] != am0[act0[z].vreg.0]);
        }
    }
    // retirement
    assert forall|j: int|
        0 <= j < i + 1 && am1.dom().contains((#[trigger] s[j]).vreg.0) && !in_active(
            act1,
            s[j].vreg.0,
        ) implies i + 1 < s.len() ==> s[j].end <= s[i + 1].start by {
        if j == i {
            assert(act1[p].vreg.0 == cur.vreg.0);
            assert(in_active(act1, s[j].vreg.0));
        } else {
            assert(s[j].vreg.0 != cur.vreg.0);
            if in_active(act0, s[j].vreg.0) {
                let k = choose|k: int|
                    0 <= k < act0.len() && (#[trigger] act0[k]).vreg.0 == s[j].vreg.0;
                let k1 = if k < p {
                    k
                } else {
                    k + 1
                };
                assert(act1[k1] == act0[k]);
                assert(in_active(act1, s[j].vreg.0));
            } else {
                assert(s[j].end <= s[i].start);
                if i + 1 < s.len() {
                    assert(interval_le(s[i], s[i + 1]));
                }
            }
        }
    }
    // distinct registers for overlapping assigned intervals
    assert forall|j1: int, j2: int|
        0 <= j1 < i + 1 && 0 <= j2 < i + 1 && j1 != j2 && spec_overlaps(
            #[trigger] s[j1],
            #[trigger] s[j2],
        ) && am1.dom().contains(s[j1].vreg.0) && am1.dom().contains(s[j2].vreg.0) implies am1[s[j1].vreg.0]
        != am1[s[j2].vreg.0] by {
        if j1 < i && j2 < i {
            assert(s[j1].vreg.0 != cur.vreg.0 && s[j2].vreg.0 != cur.vreg.0);
        } else {
            let j = if j1 == i {
                j2
            } else {
                j1
            };
            assert(s[j].vreg.0 != cur.vreg.0);
            assert(am1[s[j].vreg.0] == am0[s[j].vreg.0]);
            assert(am1[cur.vreg.0] == reg);
            if in_active(act0, s[j].vreg.0) {
                let k = choose|k: int|
                    0 <= k < act0.len() && (#[trigger] act0[k]).vreg.0 == s[j].vreg.0;
                assert(free0[free0.len() - 1] != am0[act0[k].vreg.0]);
            } else {
                assert(s[j].end <= s[i].start);
                assert(!spec_overlaps(s[j], s[i]));
            }
        }
    }
    assert forall|v: u32| #[trigger] am1.dom().contains(v) implies is_allocatable(am1[v]) by {
        if v == cur.vreg.0 {
            assert(is_allocatable(free0[free0.len() - 1]));
        } else {
            assert(am0.dom().contains(v));
        }
    }
}

/// One step of the scan in which the free pool is empty and the active
/// interval with the latest end is spilled in favour of the current one,
/// which takes over its register.
#[verifier::rlimit(100)]
proof fn lemma_steal_step(
    s: Seq<LiveInterval>,
    a0: Seq<(u32, Reg)>,
    sp0: Seq<(u32, i32)>,
    act0: Seq<LiveInterval>,
    i: int,
    slot: i32,
    cur: LiveInterval,
    last: LiveInterval,
    reg: Reg,
    a2: Seq<(u32, Reg)>,
    sp1: Seq<(u32, i32)>,
    act1: Seq<LiveInterval>,
)
    requires
        scan_inv(s, a0, sp0, act0, Seq::empty(), i, -4 * sp0.len()),
        0 <= i < s.len(),
        cur == s[i],
        forall|k: int| 0 <= k < act0.len() ==> (#[trigger] act0[k]).end > cur.start,
        !vmap(a0).dom().contains(cur.vreg.0),
        !vmap(sp0).dom().contains(cur.vreg.0),
        forall|k: int| 0 <= k < act0.len() ==> (#[trigger] act0[k]).vreg.0 != cur.vreg.0,
        act0.len() > 0,
        last == act0.last(),
        last.end > cur.end,
        reg == vmap(a0)[last.vreg.0],
        slot == -4 * sp0.len(),
        sp1 == sp0.push((last.vreg.0, slot)),
        exists|a1: Seq<(u32, Reg)>|
            keys_distinct(a1) && vmap(a1) == vmap(a0).remove(last.vreg.0) && a1.len() == a0.len()
                - 1 && a2 == #[trigger] a1.push((cur.vreg.0, reg)),
        exists|p: int| 0 <= p <= act0.len() - 1 && act1 == act0.drop_last().insert(p, cur),
        forall|k: int, l: int|
            0 <= k < l < act1.len() ==> (#[trigger] act1[k]).end <= (#[trigger] act1[l]).end,
    ensures
        scan_inv(s, a2, sp1, act1, Seq::empty(), i + 1, -4 * sp1.len()),
{
    let am0 = vmap(a0);
    let a1 = choose|a1: Seq<(u32, Reg)>|
        keys_distinct(a1) && vmap(a1) == vmap(a0).remove(last.vreg.0) && a1.len() == a0.len() - 1
            && a2 == #[trigger] a1.push((cur.vreg.0, reg));
    lemma_vmap_push(a1, cur.vreg.0, reg);
    lemma_vmap_push(sp0, last.vreg.0, slot);
    let am2 = vmap(a2);
    let sm1 = vmap(sp1);
    assert(am2 == vmap(a0).remove(last.vreg.0).insert(cur.vreg.0, reg));
    let rest = act0.drop_last();
    let p = choose|p: int| 0 <= p <= act0.len() - 1 && act1 == rest.insert(p, cur);
    rest.insert_ensures(p, cur);
    assert(keys_distinct(a2)) by {
        assert forall|x: int| 0 <= x < a1.len() implies (#[trigger] a1[x]).0 != cur.vreg.0 by {
            lemma_vmap_index(a1, x);
            assert(vmap(a1).dom().contains(a1[x].0));
        }
    }
    assert(keys_distinct(sp1)) by {
        assert forall|x: int| 0 <= x < sp0.len() implies (#[trigger] sp0[x]).0 != last.vreg.0 by {
            lemma_vmap_index(sp0, x);
            assert(vmap(sp0).dom().contains(sp0[x].0));
        }
    }
    assert(processed_contains(s, i, last));
    let jlast = choose|j: int| 0 <= j < i && #[trigger] s[j] == last;
    // exclusivity
    assert forall|j: int| 0 <= j < i + 1 implies am2.dom().contains((#[trigger] s[j]).vreg.0)
        != sm1.dom().contains(s[j].vreg.0) by {
        if j == i {
        } else if s[j].vreg.0 == last.vreg.0 {
            assert(s[j].vreg.0 != cur.vreg.0);
        } else {
            assert(s[j].vreg.0 != cur.vreg.0);
        }
    }
    assert forall|v: u32| #[trigger] am2.dom().contains(v) implies exists|j: int|
        0 <= j < i + 1 && (#[trigger] s[j]).vreg.0 == v by {
        if v == cur.vreg.0 {
            assert(s[i].vreg.0 == v);
        } else {
            assert(am0.dom().contains(v));
            let j = choose|j: int| 0 <= j < i && (#[trigger] s[j]).vreg.0 == v;
            assert(s[j].vreg.0 == v);
        }
    }
    assert forall|v: u32| #[trigger] sm1.dom().contains(v) implies exists|j: int|
        0 <= j < i + 1 && (#[trigger] s[j]).vreg.0 == v by {
        if v == last.vreg.0 {
            assert(s[jlast].vreg.0 == v);
        } else {
            assert(vmap(sp0).dom().contains(v));
            let j = choose|j: int| 0 <= j < i && (#[trigger] s[j]).vreg.0 == v;
            assert(s[j].vreg.0 == v);
        }
    }
    // the active list: rest elements keep their registers, cur takes reg
    assert forall|k: int| 0 <= k < act0.len() - 1 implies (#[trigger] act0[k]).vreg.0
        != last.vreg.0 by {
        assert(act0[k].vreg.0 != act0[act0.len() - 1].vreg.0);
    }
    assert forall|k: int| 0 <= k < act1.len() implies processed_contains(
        s,
        i + 1,
        #[trigger] act1[k],
    ) by {
        if k == p {
            assert(s[i] == act1[k]);
        } else {
            let e = if k < p {
                rest[k]
            } else {
                rest[k - 1]
            };
            assert(e == act0[if k < p {
                k
            } else {
                k - 1
            }]);
            assert(processed_contains(s, i, e));
            let j = choose|j: int| 0 <= j < i && #[trigger] s[j] == e;
            assert(s[j] == act1[k]);
        }
    }
    assert forall|k: int| 0 <= k < act1.len() implies am2.dom().contains(
        (#[trigger] act1[k]).vreg.0,
    ) by {
        if k != p {
            let kk = if k < p {
                k
            } else {
                k - 1
            };
            assert(act1[k] == act0[kk]);
            assert(act0[kk].vreg.0 != last.vreg.0);
            assert(am0.dom().contains(act0[kk].vreg.0));
        }
    }
    assert forall|k: int, l: int| 0 <= k < l < act1.len() implies (#[trigger] act1[k]).vreg.0 != (
    #[trigger] act1[l]).vreg.0 by {
        if k != p && l != p {
            let kk = if k < p {
                k
            } else {
                k - 1
            };
            let ll = if l < p {
                l
            } else {
                l - 1
            };
            assert(act1[k] == act0[kk] && act1[l] == act0[ll]);
        } else {
            let o = if k == p {
                l
            } else {
                k
            };
            let oo = if o < p {
                o
            } else {
                o - 1
            };
            assert(act1[o] == act0[oo]);
        }
    }
    assert forall|k: int, l: int| 0 <= k < l < act1.len() implies am2[(
    #[trigger] act1[k]).vreg.0] != am2[(#[trigger] act1[l]).vreg.0] by {
        if k != p && l != p {
            let kk = if k < p {
                k
            } else {
                k - 1
            };
            let ll = if l < p {
                l
            } else {
                l - 1
            };
            assert(act1[k] == act0[kk] && act1[l] == act0[ll]);
            assert(act0[kk].vreg.0 != last.vreg.0 && act0[ll].vreg.0 != last.vreg.0);
            assert(am2[act0[kk].vreg.0] == am0[act0[kk].vreg.0]);
            assert(am2[act0[ll].vreg.0] == am0[act0[ll].vreg.0]);
            if kk < ll {
                assert(am0[act0[kk].vreg.0] != am0[act0[ll].vreg.0]);
            } else {
                assert(am0[act0[ll].vreg.0] != am0[act0[kk].vreg.0]);
            }
        } else {
            let o = if k == p {
                l
            } else {
                k
            };
            let oo = if o < p {
                o
            } else {
                o - 1
            };
            assert(act1[o] == act0[oo]);
            assert(act0[oo].vreg.0 != last.vreg.0 && act0[oo].vreg.0 != cur.vreg.0);
            assert(am2[act0[oo].vreg.0] == am0[act0[oo].vreg.0]);
            assert(am2[cur.vreg.0] == reg);
            if oo < act0.len() - 1 {
                assert(am0[act0[oo].vreg.0] != am0[act0[act0.len() - 1].vreg.0]);
            }
        }
    }
    // retirement
    assert forall|j: int|
        0 <= j < i + 1 && am2.dom().contains((#[trigger] s[j]).vreg.0) && !in_active(
            act1,
            s[j].vreg.0,
        ) implies i + 1 < s.len() ==> s[j].end <= s[i + 1].start by {
        if j == i {
            assert(act1[p].vreg.0 == cur.vreg.0);
            assert(in_active(act1, s[j].vreg.0));
        } else if s[j].vreg.0 == last.vreg.0 {
            assert(!am2.dom().contains(s[j].vreg.0));
        } else {
            assert(s[j].vreg.0 != cur.vreg.0);
            assert(am0.dom().contains(s[j].vreg.0));
            if in_active(act0, s[j].vreg.0) {
                let k = choose|k: int|
                    0 <= k < act0.len() && (#[trigger] act0[k]).vreg.0 == s[j].vreg.0;
                assert(k < act0.len() - 1);
                let k1 = if k < p {
                    k
                } else {
                    k + 1
                };
                assert(act1[k1] == rest[k]);
                assert(rest[k] == act0[k]);
                assert(in_active(act1, s[j].vreg.0));
            } else {
                assert(s[j].end <= s[i].start);
                if i + 1 < s.len() {
                    assert(interval_le(s[i], s[i + 1]));
                }
            }
        }
    }
    // distinct registers for overlapping assigned intervals
    assert forall|j1: int, j2: int|
        0 <= j1 < i + 1 && 0 <= j2 < i + 1 && j1 != j2 && spec_overlaps(
            #[trigger] s[j1],
            #[trigger] s[j2],
        ) && am2.dom().contains(s[j1].vreg.0) && am2.dom().contains(s[j2].vreg.0) implies am2[s[j1].vreg.0]
        != am2[s[j2].vreg.0] by {
        if j1 < i && j2 < i {
            assert(s[j1].vreg.0 != cur.vreg.0 && s[j2].vreg.0 != cur.vreg.0);
            assert(s[j1].vreg.0 != last.vreg.0 && s[j2].vreg.0 != last.vreg.0) by {
                if s[j1].vreg.0 == last.vreg.0 {
                    assert(!am2.dom().contains(s[j1].vreg.0));
                }
                if s[j2].vreg.0 == last.vreg.0 {
                    assert(!am2.dom().contains(s[j2].vreg.0));
                }
            }
            assert(am2[s[j1].vreg.0] == am0[s[j1].vreg.0]);
            assert(am2[s[j2].vreg.0] == am0[s[j2].vreg.0]);
        } else {
            let j = if j1 == i {
                j2
            } else {
                j1
            };
            assert(s[j].vreg.0 != cur.vreg.0);
            assert(s[j].vreg.0 != last.vreg.0) by {
                if s[j].vreg.0 == last.vreg.0 {
                    assert(!am2.dom().contains(s[j].vreg.0));
                }
            }
            assert(am2[s[j].vreg.0] == am0[s[j].vreg.0]);
            assert(am2[cur.vreg.0] == reg);
            if in_active(act0, s[j].vreg.0) {
                let k = choose|k: int|
                    0 <= k < act0.len() && (#[trigger] act0[k]).vreg.0 == s[j].vreg.0;
                assert(k < act0.len() - 1);
                assert(am0[act0[k].vreg.0] != am0[act0[act0.len() - 1].vreg.0]);
            } else {
                assert(s[j].end <= s[i].start);
                assert(!spec_overlaps(s[j], s[i]));
            }
        }
    }
    assert forall|v: u32| #[trigger] am2.dom().contains(v) implies is_allocatable(am2[v]) by {
        if v == cur.vreg.0 {
            assert(am0.dom().contains(last.vreg.0));
            assert(is_allocatable(am0[last.vreg.0]));
        } else {
            assert(am0.dom().contains(v));
            assert(am2[v] == am0[v]);
        }
    }
    // spill slots
    assert forall|x: int, y: int| 0 <= x < y < sp1.len() implies (#[trigger] sp1[x]).1 != (
    #[trigger] sp1[y]).1 by {
        if y == sp0.len() {
            assert(sp1[y].1 == slot);
            assert(sp1[x].1 == sp0[x].1);
            assert(sp0[x].1 > -4 * sp0.len());
        } else {
            assert(sp1[x].1 == sp0[x].1 && sp1[y].1 == sp0[y].1);
        }
    }
    assert forall|x: int| 0 <= x < sp1.len() implies -4 * sp1.len() < (#[trigger] sp1[x]).1
        <= 0 by {
        if x < sp0.len() {
            assert(sp1[x].1 == sp0[x].1);
        } else {
            assert(sp1[x].1 == slot);
        }
    }
}

/// One step of the scan in which the current interval itself is spilled.
proof fn lemma_spill_step(
    s: Seq<LiveInterval>,
    a0: Seq<(u32, Reg)>,
    sp0: Seq<(u32, i32)>,
    act0: Seq<LiveInterval>,
    i: int,
    slot: i32,
    cur: LiveInterval,
    sp1: Seq<(u32, i32)>,
)
    requires
        scan_inv(s, a0, sp0, act0, Seq::empty(), i, -4 * sp0.len()),
        0 <= i < s.len(),
        cur == s[i],
        !vmap(a0).dom().contains(cur.vreg.0),
        !vmap(sp0).dom().contains(cur.vreg.0),
        forall|x: int| 0 <= x < sp0.len() ==> (#[trigger] sp0[x]).0 != cur.vreg.0,
        slot == -4 * sp0.len(),
        sp1 == sp0.push((cur.vreg.0, slot)),
    ensures
        scan_inv(s, a0, sp1, act0, Seq::empty(), i + 1, -4 * sp1.len()),
{
    let am0 = vmap(a0);
    lemma_vmap_push(sp0, cur.vreg.0, slot);
    let sm1 = vmap(sp1);
    assert forall|j: int| 0 <= j < i + 1 implies am0.dom().contains((#[trigger] s[j]).vreg.0)
        != sm1.dom().contains(s[j].vreg.0) by {
        if j < i {
            assert(s[j].vreg.0 != cur.vreg.0);
        }
    }
    assert forall|v: u32| #[trigger] sm1.dom().contains(v) implies exists|j: int|
        0 <= j < i + 1 && (#[trigger] s[j]).vreg.0 == v by {
        if v == cur.vreg.0 {
            assert(s[i].vreg.0 == v);
        } else {
            assert(vmap(sp0).dom().contains(v));
            let j = choose|j: int| 0 <= j < i && (#[trigger] s[j]).vreg.0 == v;
            assert(s[j].vreg.0 == v);
        }
    }
    assert forall|v: u32| #[trigger] am0.dom().contains(v) implies exists|j: int|
        0 <= j < i + 1 && (#[trigger] s[j]).vreg.0 == v by {
        let j = choose|j: int| 0 <= j < i && (#[trigger] s[j]).vreg.0 == v;
        assert(s[j].vreg.0 == v);
    }
    assert forall|j: int|
        0 <= j < i + 1 && am0.dom().contains((#[trigger] s[j]).vreg.0) && !in_active(
            act0,
            s[j].vreg.0,
        ) implies i + 1 < s.len() ==> s[j].end <= s[i + 1].start by {
        if j == i {
            assert(!am0.dom().contains(s[j].vreg.0));
        } else {
            assert(s[j].end <= s[i].start || in_active(act0, s[j].vreg.0));
            if i + 1 < s.len() {
                assert(interval_le(s[i], s[i + 1]));
            }
        }
    }
    assert forall|j1: int, j2: int|
        0 <= j1 < i + 1 && 0 <= j2 < i + 1 && j1 != j2 && spec_overlaps(
            #[trigger] s[j1],
            #[trigger] s[j2],
        ) && am0.dom().contains(s[j1].vreg.0) && am0.dom().contains(s[j2].vreg.0) implies am0[s[j1].vreg.0]
        != am0[s[j2].vreg.0] by {
        if j1 == i || j2 == i {
            let j = if j1 == i {
                j1
            } else {
                j2
            };
            assert(!am0.dom().contains(s[j].vreg.0));
        }
    }
    assert forall|x: int, y: int| 0 <= x < y < sp1.len() implies (#[trigger] sp1[x]).1 != (
    #[trigger] sp1[y]).1 by {
        if y == sp0.len() {
            assert(sp1[y].1 == slot);
            assert(sp1[x].1 == sp0[x].1);
            assert(sp0[x].1 > -4 * sp0.len());
        } else {
            assert(sp1[x].1 == sp0[x].1 && sp1[y].1 == sp0[y].1);
        }
    }
    assert forall|x: int| 0 <= x < sp1.len() implies -4 * sp1.len() < (#[trigger] sp1[x]).1
        <= 0 by {
        if x < sp0.len() {
            assert(sp1[x].1 == sp0[x].1);
        } else {
            assert(sp1[x].1 == slot);
        }
    }
}

/// The linear-scan register allocator: processes live intervals sorted by
/// start, keeps an active list sorted by end, and spills the interval with
/// the latest end when the pool runs dry.
pub struct LinearScan {
    /// Live intervals; sorted by start once `allocate` has run.
    pub intervals: Vec<LiveInterval>,
    /// Physical register assignments by virtual-register id.
    pub assignments: Vec<(u32, Reg)>,
    /// Spill slot offsets by virtual-register id.
    pub spill_slots: Vec<(u32, i32)>,
    /// Next spill slot offset; decremented by one word per spill.
    pub next_spill: i32,
}

impl LinearScan {
    /// Map of assigned registers.
    pub open spec fn amap(self) -> Map<u32, Reg> {
        vmap(self.assignments@)
    }

    /// Map of spill slots.
    pub open spec fn smap(self) -> Map<u32, i32> {
        vmap(self.spill_slots@)
    }

    /// Allocation validity: any two distinct overlapping intervals that both
    /// hold a physical register hold different ones.
    pub open spec fn allocation_valid(self) -> bool {
        forall|i: int, j: int|
            0 <= i < self.intervals@.len() && 0 <= j < self.intervals@.len() && i != j
                && spec_overlaps(#[trigger] self.intervals@[i], #[trigger] self.intervals@[j])
                && self.amap().dom().contains(self.intervals@[i].vreg.0) && self.amap()
                .dom()
                .contains(self.intervals@[j].vreg.0) ==> self.amap()[self.intervals@[i].vreg.0]
                != self.amap()[self.intervals@[j].vreg.0]
    }

    /// Fresh allocator over the given intervals.
    pub fn new(intervals: Vec<LiveInterval>) -> (r: Self)
        ensures
            r.intervals == intervals,
            r.assignments@.len() == 0,
            r.spill_slots@.len() == 0,
            r.next_spill == 0,
    {
        Self { intervals, assignments: Vec::new(), spill_slots: Vec::new(), next_spill: 0 }
    }

    /// Expire every active interval that ends at or before `current`,
    /// returning its register to the free pool.
    fn expire_old(
        &self,
        active: &mut Vec<LiveInterval>,
        free: &mut Vec<Reg>,
        current: u32,
        Ghost(s): Ghost<Seq<LiveInterval>>,
        Ghost(i): Ghost<int>,
    )
        requires
            scan_inv(
                s,
                self.assignments@,
                self.spill_slots@,
                old(active)@,
                old(free)@,
                i,
                self.next_spill as int,
            ),
            i < s.len(),
            current == s[i].start,
        ensures
            scan_inv(
                s,
                self.assignments@,
                self.spill_slots@,
                final(active)@,
                final(free)@,
                i,
                self.next_spill as int,
            ),
            forall|k: int|
                0 <= k < final(active)@.len() ==> (#[trigger] final(active)@[k]).end > current,
            forall|k: int|
                0 <= k < final(active)@.len() ==> old(active)@.contains(
                    #[trigger] final(active)@[k],
                ),
            (forall|k: int|
                0 <= k < old(active)@.len() ==> (#[trigger] old(active)@[k]).end > current)
                ==> final(active)@ == old(active)@,
    {
        proof {
            assert forall|k: int| 0 <= k < active@.len() implies old(active)@.contains(
                #[trigger] active@[k],
            ) by {
                assert(old(active)@[k] == active@[k]);
            }
        }
        loop
            invariant
                scan_inv(
                    s,
                    self.assignments@,
                    self.spill_slots@,
                    active@,
                    free@,
                    i,
                    self.next_spill as int,
                ),
                i < s.len(),
                current == s[i].start,
                forall|k: int|
                    0 <= k < active@.len() ==> old(active)@.contains(#[trigger] active@[k]),
                (forall|k: int|
                    0 <= k < old(active)@.len() ==> (#[trigger] old(active)@[k]).end > current)
                    ==> active@ == old(active)@,
            ensures
                active@.len() == 0 || active@[0].end > current,
                scan_inv(
                    s,
                    self.assignments@,
                    self.spill_slots@,
                    active@,
                    free@,
                    i,
                    self.next_spill as int,
                ),
                forall|k: int|
                    0 <= k < active@.len() ==> old(active)@.contains(#[trigger] active@[k]),
                (forall|k: int|
                    0 <= k < old(active)@.len() ==> (#[trigger] old(active)@[k]).end > current)
                    ==> active@ == old(active)@,
            decreases active@.len(),
        {
            if active.len() == 0 {
                break;
            }
            if active[0].end > current {
                break;
            }
            proof {
                if forall|k: int|
                    0 <= k < old(active)@.len() ==> (#[trigger] old(active)@[k]).end > current {
                    assert(old(active)@.contains(active@[0]));
                    let l = choose|l: int|
                        0 <= l < old(active)@.len() && old(active)@[l] == active@[0];
                    assert(old(active)@[l].end > current);
                    assert(false);
                }
            }
            let ghost prev_active = active@;
            let ghost prev_free = free@;
            let e = active.remove(0);
            let reg = match vmap_get(&self.assignments, e.vreg.0) {
                Some(r) => *r,
                None => vstd::pervasive::unreached(),
            };
            free.push(reg);
            proof {
                assert(forall|k: int|
                    0 <= k < active@.len() ==> #[trigger] active@[k] == prev_active[k + 1]);
                assert(forall|x: int|
                    0 <= x < free@.len() ==> #[trigger] free@[x] == if x < prev_free.len() {
                        prev_free[x]
                    } else {
                        reg
                    });
                assert forall|x: int, k: int|
                    0 <= x < free@.len() && 0 <= k < active@.len() implies #[trigger] free@[x]
                    != vmap(self.assignments@)[(#[trigger] active@[k]).vreg.0] by {
                    if x < prev_free.len() {
                        assert(prev_active[k + 1].vreg.0 == active@[k].vreg.0);
                    } else {
                        assert(free@[x] == vmap(self.assignments@)[prev_active[0].vreg.0]);
                        assert(prev_active[0].vreg.0 != active@[k].vreg.0);
                    }
                }
                assert forall|x: int, y: int| 0 <= x < y < free@.len() implies #[trigger] free@[x]
                    != #[trigger] free@[y] by {
                    if y == prev_free.len() {
                        assert(free@[y] == vmap(self.assignments@)[prev_active[0].vreg.0]);
                    }
                }
                assert forall|j: int|
                    0 <= j < i && vmap(self.assignments@).dom().contains(
                        (#[trigger] s[j]).vreg.0,
                    ) && !in_active(active@, s[j].vreg.0) implies i < s.len() ==> s[j].end
                    <= s[i].start by {
                    if in_active(prev_active, s[j].vreg.0) {
                        let k = choose|k: int|
                            0 <= k < prev_active.len() && (#[trigger] prev_active[k]).vreg.0
                                == s[j].vreg.0;
                        if k == 0 {
                            assert(processed_contains(s, i, prev_active[0]));
                            let l = choose|l: int| 0 <= l < i && #[trigger] s[l] == prev_active[0];
                            assert(s[l] == prev_active[0]);
                            assert(l == j || s[l].vreg.0 != s[j].vreg.0);
                            assert(s[j].end <= current);
                        } else {
                            assert(active@[k - 1] == prev_active[k]);
                            assert(in_active(active@, s[j].vreg.0));
                        }
                    }
                }
            }
        }
    }


    /// Physical register assigned to a virtual register, if any.
    pub fn get_assignment(&self, vreg: VirtualReg) -> (r: Option<Reg>)
        ensures
            match r {
                Some(reg) => self.amap().dom().contains(vreg.0) && reg == self.amap()[vreg.0],
                None => !self.amap().dom().contains(vreg.0),
            },
    {
        match vmap_get(&self.assignments, vreg.0) {
            Some(reg) => Some(*reg),
            None => None,
        }
    }

    /// Whether a virtual register was spilled.
    pub fn is_spilled(&self, vreg: VirtualReg) -> (r: bool)
        ensures
            r == self.smap().dom().contains(vreg.0),
    {
        vmap_get(&self.spill_slots, vreg.0).is_some()
    }

    /// Spill slot offset of a spilled virtual register, if any.
    pub fn get_spill_slot(&self, vreg: VirtualReg) -> (r: Option<i32>)
        ensures
            match r {
                Some(slot) => self.smap().dom().contains(vreg.0) && slot == self.smap()[vreg.0],
                None => !self.smap().dom().contains(vreg.0),
            },
    {
        match vmap_get(&self.spill_slots, vreg.0) {
            Some(slot) => Some(*slot),
            None => None,
        }
    }

    /// Run linear-scan allocation: sort the intervals by start, sweep them
    /// once, and give every interval either a physical register or a spill
    /// slot. Overlapping intervals never share a register, and exhausting
    /// the pool spills rather than fails.
    pub fn allocate(&mut self) -> (r: RegAllocResult<()>)
        requires
            old(self).assignments@.len() == 0,
            old(self).spill_slots@.len() == 0,
            old(self).next_spill == 0,
            vregs_distinct(old(self).intervals@),
            old(self).intervals@.len() <= 0x1000_0000,
        ensures
            r is Ok,
            final(self).intervals@.to_multiset() == old(self).intervals@.to_multiset(),
            final(self).intervals@.len() == old(self).intervals@.len(),
            intervals_sorted(final(self).intervals@),
            vregs_distinct(final(self).intervals@),
            forall|j: int|
                0 <= j < final(self).intervals@.len() ==> final(self).amap().dom().contains(
                    (#[trigger] final(self).intervals@[j]).vreg.0,
                ) != final(self).smap().dom().contains(final(self).intervals@[j].vreg.0),
            forall|v: u32|
                #[trigger] final(self).amap().dom().contains(v) ==> exists|j: int|
                    0 <= j < final(self).intervals@.len() && (#[trigger] final(self).intervals@[j]).vreg.0 == v,
            forall|v: u32|
                #[trigger] final(self).smap().dom().contains(v) ==> exists|j: int|
                    0 <= j < final(self).intervals@.len() && (#[trigger] final(self).intervals@[j]).vreg.0 == v,
            final(self).assignments@.len() + final(self).spill_slots@.len() == final(self).intervals@.len(),
            keys_distinct(final(self).assignments@),
            keys_distinct(final(self).spill_slots@),
            final(self).allocation_valid(),
            forall|v: u32|
                #[trigger] final(self).amap().dom().contains(v) ==> is_allocatable(
                    final(self).amap()[v],
                ),
            forall|x: int, y: int|
                0 <= x < y < final(self).spill_slots@.len() ==> (#[trigger] final(self).spill_slots@[x]).1 != (#[trigger] final(self).spill_slots@[y]).1,
            all_overlap(final(self).intervals@) ==> final(self).assignments@.len() == (
            if final(self).intervals@.len() <= POOL_SIZE {
                final(self).intervals@.len() as int
            } else {
                POOL_SIZE as int
            }) && final(self).spill_slots@.len() == final(self).intervals@.len() - final(self).assignments@.len(),
    {
        let sorted = sort_intervals(&self.intervals);
        self.intervals = sorted;
        let ghost s = self.intervals@;
        let ghost allover = all_overlap(s);
        let mut free: Vec<Reg> = Vec::new();
        let mut idx: u8 = 8;
        while idx < 28
            invariant
                8 <= idx <= 28,
                free@.len() == idx - 8,
                forall|x: int| 0 <= x < free@.len() ==> #[trigger] free@[x] == Reg((x + 8) as u8),
            decreases 28 - idx,
        {
            free.push(Reg(idx));
            idx = idx + 1;
        }
        let mut active: Vec<LiveInterval> = Vec::new();
        let mut i: usize = 0;
        proof {
            assert(vmap(self.assignments@) =~= Map::<u32, Reg>::empty());
            assert(vmap(self.spill_slots@) =~= Map::<u32, i32>::empty());
        }
        while i < self.intervals.len()
            invariant
                self.intervals@ == s,
                s.len() <= 0x1000_0000,
                0 <= i <= s.len(),
                allover == all_overlap(s),
                scan_inv(
                    s,
                    self.assignments@,
                    self.spill_slots@,
                    active@,
                    free@,
                    i as int,
                    self.next_spill as int,
                ),
                allover ==> active@.len() == (if i <= POOL_SIZE {
                    i as int
                } else {
                    POOL_SIZE as int
                }) && self.assignments@.len() == active@.len(),
                s.len() <= POOL_SIZE ==> self.spill_slots@.len() == 0,
            decreases s.len() - i,
        {
            let cur = self.intervals[i];
            let ghost pre_active = active@;
            self.expire_old(&mut active, &mut free, cur.start, Ghost(s), Ghost(i as int));
            proof {
                if allover {
                    assert forall|k: int| 0 <= k < pre_active.len() implies (
                    #[trigger] pre_active[k]).end > cur.start by {
                        assert(processed_contains(s, i as int, pre_active[k]));
                        let j = choose|j: int| 0 <= j < i && #[trigger] s[j] == pre_active[k];
                        assert(spec_overlaps(s[j], s[i as int]));
                    }
                    assert(active@ == pre_active);
                }
            }
            let ghost a0 = self.assignments@;
            let ghost sp0 = self.spill_slots@;
            let ghost act0 = active@;
            let ghost free0 = free@;
            proof {
                // the current virtual register is still unbound
                if vmap(a0).dom().contains(cur.vreg.0) {
                    let j = choose|j: int| 0 <= j < i && (#[trigger] s[j]).vreg.0 == cur.vreg.0;
                    assert(false);
                }
                if vmap(sp0).dom().contains(cur.vreg.0) {
                    let j = choose|j: int| 0 <= j < i && (#[trigger] s[j]).vreg.0 == cur.vreg.0;
                    assert(false);
                }
                assert forall|x: int| 0 <= x < a0.len() implies (#[trigger] a0[x]).0
                    != cur.vreg.0 by {
                    lemma_vmap_index(a0, x);
                }
                assert forall|x: int| 0 <= x < sp0.len() implies (#[trigger] sp0[x]).0
                    != cur.vreg.0 by {
                    lemma_vmap_index(sp0, x);
                }
                // active virtual registers differ from the current one
                assert forall|k: int| 0 <= k < act0.len() implies (#[trigger] act0[k]).vreg.0
                    != cur.vreg.0 by {
                    assert(vmap(a0).dom().contains(act0[k].vreg.0));
                }
            }
            if free.len() > 0 {
                let reg = match free.pop() {
                    Some(rg) => rg,
                    None => vstd::pervasive::unreached(),
                };
                proof {
                    lemma_vmap_push(a0, cur.vreg.0, reg);
                }
                self.assignments.push((cur.vreg.0, reg));
                insert_active(&mut active, cur);
                proof {
                    lemma_alloc_step(s, a0, sp0, act0, free0, i as int, self.next_spill as int,
                        cur, reg, self.assignments@, active@, free@);
                }
            } else {
                proof {
                    assert(active@.len() == POOL_SIZE);
                    assert(s.len() > POOL_SIZE);
                }
                let last = active[active.len() - 1];
                if last.end > cur.end {
                    let reg = match vmap_get(&self.assignments, last.vreg.0) {
                        Some(rg) => *rg,
                        None => vstd::pervasive::unreached(),
                    };
                    vmap_remove(&mut self.assignments, last.vreg.0);
                    let ghost a1 = self.assignments@;
                    let slot = self.next_spill;
                    self.next_spill = self.next_spill - 4;
                    proof {
                        lemma_vmap_push(sp0, last.vreg.0, slot);
                        lemma_vmap_contains(sp0, last.vreg.0);
                        assert forall|x: int| 0 <= x < a1.len() implies (#[trigger] a1[x]).0
                            != cur.vreg.0 by {
                            lemma_vmap_index(a1, x);
                            lemma_vmap_contains(a0, a1[x].0);
                        }
                    }
                    self.spill_slots.push((last.vreg.0, slot));
                    proof {
                        lemma_vmap_push(a1, cur.vreg.0, reg);
                    }
                    self.assignments.push((cur.vreg.0, reg));
                    proof {
                        assert(self.assignments@ == a1.push((cur.vreg.0, reg)));
                    }
                    match active.pop() {
                        Some(_) => (),
                        None => vstd::pervasive::unreached(),
                    }
                    let ghost act_mid = active@;
                    insert_active(&mut active, cur);
                    proof {
                        assert(act_mid == act0.drop_last());
                        let p = choose|p: int|
                            0 <= p <= act_mid.len() && active@ == #[trigger] act_mid.insert(
                                p,
                                cur,
                            );
                        assert(0 <= p <= act0.len() - 1 && active@ == act0.drop_last().insert(
                            p,
                            cur,
                        ));
                        lemma_steal_step(s, a0, sp0, act0, i as int, slot, cur, last, reg,
                            self.assignments@, self.spill_slots@, active@);
                    }
                } else {
                    let slot = self.next_spill;
                    self.next_spill = self.next_spill - 4;
                    proof {
                        lemma_vmap_push(sp0, cur.vreg.0, slot);
                    }
                    self.spill_slots.push((cur.vreg.0, slot));
                    proof {
                        lemma_spill_step(s, a0, sp0, act0, i as int, slot, cur,
                            self.spill_slots@);
                    }
                }
            }
            i = i + 1;
        }
        Ok(())
    }
}

} // verus!
