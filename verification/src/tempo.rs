//! The tempo map: an ordered mapping from tick to microseconds per quarter
//! note, kept as a sorted vector of entries. It is never empty: a synthetic
//! entry of 500,000 µs/quarter (120 BPM), effective from the earliest
//! representable tick, is present from construction, so a floor lookup never
//! misses.

use vstd::prelude::*;

verus! {

/// The default tempo, applied when a piece declares none: 120 beats per
/// minute, i.e. 500,000 microseconds per quarter note.
pub const DEFAULT_MSPQ: u32 = 500_000;

/// The mathematical content of an entry list: tick → mspq, later entries
/// overwriting earlier ones with the same tick.
pub open spec fn entries_map(s: Seq<(i64, u32)>) -> Map<int, int>
    decreases s.len(),
{
    if s.len() == 0 {
        Map::empty()
    } else {
        entries_map(s.drop_last()).insert(s.last().0 as int, s.last().1 as int)
    }
}

/// The greatest index whose entry key is at most `tick`, preferring later
/// indices; `-1` if every key is above `tick`.
pub open spec fn floor_idx(s: Seq<(i64, u32)>, tick: int) -> int
    decreases s.len(),
{
    if s.len() == 0 {
        -1
    } else if s.last().0 <= tick {
        s.len() - 1
    } else {
        floor_idx(s.drop_last(), tick)
    }
}

/// Ordered tick → mspq mapping with floor-lookup semantics.
pub struct TempoMap {
    pub entries: Vec<(i64, u32)>,
}

impl TempoMap {
    /// Well-formedness: non-empty, strictly sorted by tick, the synthetic
    /// earliest-tick entry at the front, and every tempo in the nominal
    /// 24-bit range with no zero.
    pub open spec fn wf(self) -> bool {
        &&& self.entries@.len() >= 1
        &&& self.entries@[0].0 == i64::MIN
        &&& forall|i: int, j: int|
            #![trigger self.entries@[i].0, self.entries@[j].0]
            0 <= i < j < self.entries@.len() ==> self.entries@[i].0 < self.entries@[j].0
        &&& forall|i: int|
            0 <= i < self.entries@.len() ==> 1 <= (#[trigger] self.entries@[i]).1 <= 0xFF_FFFF
    }

    /// The map this entry list denotes.
    pub open spec fn to_map(self) -> Map<int, int> {
        entries_map(self.entries@)
    }

    /// A fresh map holding only the synthetic default entry.
    pub fn new() -> (t: TempoMap)
        ensures
            t.wf(),
            t.entries@ == seq![(i64::MIN, DEFAULT_MSPQ)],
            t.to_map() == Map::<int, int>::empty().insert(i64::MIN as int, DEFAULT_MSPQ as int),
    {
        let mut v: Vec<(i64, u32)> = Vec::new();
        v.push((i64::MIN, DEFAULT_MSPQ));
        proof {
            assert(v@ =~= seq![(i64::MIN, DEFAULT_MSPQ)]);
            assert(v@.drop_last() =~= Seq::<(i64, u32)>::empty());
            assert(entries_map(v@.drop_last()) =~= Map::<int, int>::empty());
            assert(v@.last() == (i64::MIN, DEFAULT_MSPQ));
            assert(entries_map(v@) =~= Map::<int, int>::empty().insert(
                i64::MIN as int,
                DEFAULT_MSPQ as int,
            ));
        }
        TempoMap { entries: v }
    }

    /// Insert `tick → mspq`; an entry already at `tick` is overwritten
    /// (last write wins).
    pub fn insert(&mut self, tick: i64, mspq: u32)
        requires
            old(self).wf(),
            tick > i64::MIN,
            1 <= mspq <= 0xFF_FFFF,
        ensures
            final(self).wf(),
            final(self).to_map() == old(self).to_map().insert(tick as int, mspq as int),
            final(self).entries@.len() == old(self).entries@.len() + (if old(self).to_map().dom().contains(tick as int) {
                0int
            } else {
                1int
            }),
    {
        let ghost s0 = self.entries@;
        let mut i: usize = self.entries.len();
        while i > 0 && self.entries[i - 1].0 > tick
            invariant
                i <= self.entries@.len(),
                self.entries@ == s0,
                old(self).wf(),
                forall|j: int|
                    i <= j < self.entries@.len() ==> (#[trigger] self.entries@[j]).0 > tick,
            decreases i,
        {
            i = i - 1;
        }
        // entries[0].0 == i64::MIN < tick, so the scan stopped at some i >= 1
        // with entries[i-1].0 <= tick.
        assert(i >= 1);
        if self.entries[i - 1].0 == tick {
            proof {
                lemma_keys_unique_last(s0, i - 1);
                lemma_entries_map_update(s0, i - 1, mspq);
            }
            self.entries.set(i - 1, (tick, mspq));
            proof {
                assert(self.entries@ =~= s0.update(i - 1, (tick, mspq)));
                lemma_entries_map_dom(s0);
            }
        } else {
            proof {
                lemma_key_absent(s0, tick as int, i as int);
                lemma_entries_map_insert_at(s0, i as int, tick, mspq);
                lemma_entries_map_dom(s0);
            }
            self.entries.insert(i, (tick, mspq));
        }
    }
}

/// A key is in the denoted map exactly when some entry carries it.
pub proof fn lemma_entries_map_dom(s: Seq<(i64, u32)>)
    ensures
        forall|k: int|
            #[trigger] entries_map(s).dom().contains(k) <==> exists|i: int|
                0 <= i < s.len() && (#[trigger] s[i]).0 == k,
    decreases s.len(),
{
    if s.len() > 0 {
        lemma_entries_map_dom(s.drop_last());
        assert forall|k: int| #[trigger]
            entries_map(s).dom().contains(k) implies exists|i: int|
            0 <= i < s.len() && (#[trigger] s[i]).0 == k by {
            if k == s.last().0 as int {
                assert(s[s.len() - 1].0 == k);
            } else {
                let dl = s.drop_last();
                assert(entries_map(dl).dom().contains(k));
                let i = choose|i: int| 0 <= i < dl.len() && (#[trigger] dl[i]).0 == k;
                assert(s[i] == dl[i]);
                assert(s[i].0 == k);
            }
        }
        assert forall|k: int|
            exists|i: int| 0 <= i < s.len() && (#[trigger] s[i]).0 == k implies #[trigger]
            entries_map(s).dom().contains(k) by {
            let i = choose|i: int| 0 <= i < s.len() && (#[trigger] s[i]).0 == k;
            if i < s.len() - 1 {
                let dl = s.drop_last();
                assert(dl[i] == s[i]);
                assert(dl[i].0 == k);
                assert(entries_map(dl).dom().contains(k));
            } else {
                assert(k == s.last().0 as int);
            }
        }
    }
}

/// The value the denoted map holds at the key of entry `i`, provided no
/// later entry carries the same key.
pub proof fn lemma_entries_map_value(s: Seq<(i64, u32)>, i: int)
    requires
        0 <= i < s.len(),
        forall|j: int| i < j < s.len() ==> (#[trigger] s[j]).0 != s[i].0,
    ensures
        entries_map(s).dom().contains(s[i].0 as int),
        entries_map(s)[s[i].0 as int] == s[i].1 as int,
    decreases s.len(),
{
    if i == s.len() - 1 {
    } else {
        let dl = s.drop_last();
        assert(forall|j: int| i < j < dl.len() ==> (#[trigger] dl[j]).0 != dl[i].0);
        lemma_entries_map_value(dl, i);
        assert(s.last().0 != s[i].0);
    }
}

/// In a strictly sorted entry list, no two entries share a key; in
/// particular none after `i` shares `s[i].0`.
proof fn lemma_keys_unique_last(s: Seq<(i64, u32)>, i: int)
    requires
        0 <= i < s.len(),
        forall|p: int, q: int|
            #![trigger s[p].0, s[q].0]
            0 <= p < q < s.len() ==> s[p].0 < s[q].0,
    ensures
        forall|j: int| i < j < s.len() ==> (#[trigger] s[j]).0 != s[i].0,
{
}

/// In a strictly sorted entry list where entries below `p` have keys below
/// `k` and entries from `p` on have keys above `k`, no entry carries `k`.
proof fn lemma_key_absent(s: Seq<(i64, u32)>, k: int, p: int)
    requires
        0 <= p <= s.len(),
        forall|p0: int, q0: int|
            #![trigger s[p0].0, s[q0].0]
            0 <= p0 < q0 < s.len() ==> s[p0].0 < s[q0].0,
        p >= 1 ==> s[p - 1].0 < k,
        p == 0 ==> s.len() == 0 || s[0].0 > k,
        forall|j: int| p <= j < s.len() ==> (#[trigger] s[j]).0 > k,
    ensures
        forall|i: int| 0 <= i < s.len() ==> (#[trigger] s[i]).0 != k,
{
    assert forall|i: int| 0 <= i < s.len() implies (#[trigger] s[i]).0 != k by {
        if i < p {
            assert(i == p - 1 || s[i].0 < s[p - 1].0);
        }
    }
}

/// Overwriting the entry at `p` (the last occurrence of its key) updates
/// the denoted map at that key.
proof fn lemma_entries_map_update(s: Seq<(i64, u32)>, p: int, v: u32)
    requires
        0 <= p < s.len(),
        forall|j: int| p < j < s.len() ==> (#[trigger] s[j]).0 != s[p].0,
    ensures
        entries_map(s.update(p, (s[p].0, v))) == entries_map(s).insert(s[p].0 as int, v as int),
    decreases s.len(),
{
    let s2 = s.update(p, (s[p].0, v));
    if p == s.len() - 1 {
        assert(s2.drop_last() =~= s.drop_last());
        assert(entries_map(s2) =~= entries_map(s).insert(s[p].0 as int, v as int));
    } else {
        let dl = s.drop_last();
        assert(s2.drop_last() =~= dl.update(p, (s[p].0, v)));
        assert(forall|j: int| p < j < dl.len() ==> (#[trigger] dl[j]).0 != dl[p].0);
        lemma_entries_map_update(dl, p, v);
        assert(s2.last() == s.last());
        assert(entries_map(s2) =~= entries_map(s).insert(s[p].0 as int, v as int));
    }
}

/// Inserting a fresh key at position `p` adds it to the denoted map.
proof fn lemma_entries_map_insert_at(s: Seq<(i64, u32)>, p: int, k: i64, v: u32)
    requires
        0 <= p <= s.len(),
        forall|i: int| 0 <= i < s.len() ==> (#[trigger] s[i]).0 != k,
    ensures
        entries_map(s.insert(p, (k, v))) == entries_map(s).insert(k as int, v as int),
    decreases s.len(),
{
    let s2 = s.insert(p, (k, v));
    if p == s.len() {
        assert(s2.drop_last() =~= s);
        assert(s2.last() == (k, v));
    } else {
        assert(s2.last() == s.last());
        assert(s2.drop_last() =~= s.drop_last().insert(p, (k, v)));
        assert(forall|i: int|
            0 <= i < s.drop_last().len() ==> (#[trigger] s.drop_last()[i]).0 != k);
        lemma_entries_map_insert_at(s.drop_last(), p, k, v);
        assert(s.last().0 != k);
        assert(entries_map(s2) =~= entries_map(s).insert(k as int, v as int));
    }
}

/// The result of a tempo lookup: the start tick of the resolved segment,
/// clamped to 0 when it lies below the negative pre-roll floor (the
/// earliest displayable tick), and the segment's microseconds per quarter
/// note.
pub open spec fn resolve_spec(s: Seq<(i64, u32)>, tick: int, preroll_floor: int) -> (i64, u32) {
    let i = floor_idx(s, tick);
    ((if s[i].0 < preroll_floor {
        0i64
    } else {
        s[i].0
    }), s[i].1)
}

/// The floor index is the unique index whose key is at most `tick` while
/// every later key is above `tick`.
pub proof fn lemma_floor_idx_unique(s: Seq<(i64, u32)>, tick: int, i: int)
    requires
        s.len() >= 1,
        s[0].0 <= tick,
        0 <= i < s.len(),
        s[i].0 <= tick,
        forall|j: int| i < j < s.len() ==> (#[trigger] s[j]).0 > tick,
    ensures
        floor_idx(s, tick) == i,
{
    lemma_floor_idx(s, tick);
    let f = floor_idx(s, tick);
    if f < i {
        assert(s[i].0 > tick);
    } else if f > i {
        assert(s[f].0 > tick);
    }
}

/// What a lookup means at the map level: the resolved entry's key is the
/// greatest key of the denoted map at most `tick`, the resolved tempo is
/// the map's value there, and the reported segment start is that key,
/// clamped to 0 below the pre-roll floor.
pub proof fn lemma_resolve_is_map_floor(t: TempoMap, tick: int, preroll_floor: int)
    requires
        t.wf(),
        i64::MIN <= tick,
    ensures
        ({
            let k = t.entries@[floor_idx(t.entries@, tick)].0 as int;
            &&& t.to_map().dom().contains(k)
            &&& t.to_map()[k] == resolve_spec(t.entries@, tick, preroll_floor).1 as int
            &&& k <= tick
            &&& forall|k2: int| t.to_map().dom().contains(k2) && k2 <= tick ==> k2 <= k
            &&& resolve_spec(t.entries@, tick, preroll_floor).0 == (if k < preroll_floor {
                0int
            } else {
                k
            })
        }),
{
    let s = t.entries@;
    lemma_floor_idx(s, tick);
    let f = floor_idx(s, tick);
    lemma_keys_unique_last(s, f);
    lemma_entries_map_value(s, f);
    lemma_entries_map_dom(s);
    assert forall|k2: int| t.to_map().dom().contains(k2) && k2 <= tick implies k2 <= s[f].0 by {
        let i = choose|i: int| 0 <= i < s.len() && (#[trigger] s[i]).0 == k2;
        if i > f {
            assert(s[i].0 > tick);
        } else if i < f {
            assert(s[i].0 < s[f].0);
        }
    }
}

/// Law: for an unchanged tempo map, `resolve` is idempotent — resolving the
/// segment start it returns yields the same segment again, so re-anchoring
/// the playback clock at that start is stable.
///
/// Stated for non-negative query ticks and a non-positive pre-roll floor
/// (the floor is the earliest displayable tick, at or before tick 0). A
/// query in the negative pre-roll region can clamp to segment start 0 even
/// though a distinct entry governs tick 0, and there idempotence can fail.
pub proof fn lemma_resolve_idempotent(s: Seq<(i64, u32)>, tick: int, preroll_floor: int)
    requires
        s.len() >= 1,
        s[0].0 == i64::MIN,
        forall|p: int, q: int|
            #![trigger s[p].0, s[q].0]
            0 <= p < q < s.len() ==> s[p].0 < s[q].0,
        0 <= tick,
        preroll_floor <= 0,
    ensures
        resolve_spec(s, resolve_spec(s, tick, preroll_floor).0 as int, preroll_floor)
            == resolve_spec(s, tick, preroll_floor),
{
    lemma_floor_idx(s, tick);
    let i = floor_idx(s, tick);
    let k = s[i].0;
    if k >= preroll_floor {
        assert forall|j: int| i < j < s.len() implies (#[trigger] s[j]).0 > k by {
            assert(s[i].0 < s[j].0);
        }
        lemma_floor_idx_unique(s, k as int, i);
    } else {
        lemma_floor_idx(s, 0);
        let i0 = floor_idx(s, 0);
        if i0 < i {
            assert(s[i].0 > 0);
        } else if i0 > i {
            assert(s[i0].0 > tick);
            assert(s[i0].0 <= 0);
        }
        assert(i0 == i);
    }
}

/// What the floor index delivers: it exists whenever the first key is low
/// enough, its key is at most `tick`, and every later entry's key is above
/// `tick`.
pub proof fn lemma_floor_idx(s: Seq<(i64, u32)>, tick: int)
    requires
        s.len() >= 1,
        s[0].0 <= tick,
    ensures
        0 <= floor_idx(s, tick) < s.len(),
        s[floor_idx(s, tick)].0 <= tick,
        forall|j: int| floor_idx(s, tick) < j < s.len() ==> (#[trigger] s[j]).0 > tick,
    decreases s.len(),
{
    if s.last().0 <= tick {
    } else {
        assert(s.len() >= 2);
        let dl = s.drop_last();
        assert(dl[0] == s[0]);
        lemma_floor_idx(dl, tick);
        assert forall|j: int| floor_idx(s, tick) < j < s.len() implies (#[trigger] s[j]).0
            > tick by {
            if j < s.len() - 1 {
                assert(s[j] == dl[j]);
                assert(dl[j].0 > tick);
            } else {
                assert(s[j] == s.last());
            }
        }
    }
}

} // verus!
