//! Flow table: the outbound side's map from flow key to its live stream.
//!
//! One entry per flow key ever seen. An entry holds the number of the stream
//! currently carrying that flow, or nothing after a write failure — the entry
//! is cleared, never removed, so the next packet for the key opens a fresh
//! stream. Stream numbers are handed out from a counter that never repeats,
//! so at most one live stream exists per key and no two keys share one. The
//! table has a single writer (the outbound pump) and needs no locking.

use vstd::prelude::*;

use crate::classifier::FlowKey;

verus! {

/// One entry per key: the live stream's number, or `None` once cleared.
pub struct FlowTable {
    entries: Vec<(FlowKey, Option<u64>)>,
    next_id: u64,
}

/// The live stream for a key under a table model: the stored number if the
/// key has an entry, nothing for a cleared or absent entry.
pub open spec fn live_of(m: Map<FlowKey, Option<u64>>, k: FlowKey) -> Option<u64> {
    if m.contains_key(k) {
        m[k]
    } else {
        None
    }
}

/// What a well-formed table guarantees of its model: every live stream number
/// is below the next one to be issued, and no two keys share one.
pub open spec fn table_model_ok(m: Map<FlowKey, Option<u64>>, next: u64) -> bool {
    &&& forall|k: FlowKey| #[trigger]
        m.contains_key(k) ==> (m[k] matches Some(id) ==> id < next)
    &&& forall|k1: FlowKey, k2: FlowKey| #![trigger m[k1], m[k2]]
        m.contains_key(k1) && m.contains_key(k2) && m[k1] is Some && m[k1] == m[k2] ==> k1 == k2
}

spec fn unique_keys(s: Seq<(FlowKey, Option<u64>)>) -> bool {
    forall|i: int, j: int| 0 <= i < j < s.len() ==> (#[trigger] s[i]).0 != (#[trigger] s[j]).0
}

spec fn ids_ok(s: Seq<(FlowKey, Option<u64>)>, next: u64) -> bool {
    &&& forall|i: int|
        0 <= i < s.len() ==> ((#[trigger] s[i]).1 matches Some(id) ==> id < next)
    &&& forall|i: int, j: int|
        0 <= i < j < s.len() && (#[trigger] s[i]).1 is Some ==> (#[trigger] s[j]).1 != s[i].1
}

spec fn map_of(s: Seq<(FlowKey, Option<u64>)>) -> Map<FlowKey, Option<u64>>
    decreases s.len(),
{
    if s.len() == 0 {
        Map::empty()
    } else {
        map_of(s.drop_last()).insert(s.last().0, s.last().1)
    }
}

proof fn lemma_map_of_contains(s: Seq<(FlowKey, Option<u64>)>, k: FlowKey)
    ensures
        map_of(s).contains_key(k) <==> exists|i: int| 0 <= i < s.len() && (#[trigger] s[i]).0 == k,
    decreases s.len(),
{
    if s.len() > 0 {
        lemma_map_of_contains(s.drop_last(), k);
        if s.last().0 == k {
            assert(s[s.len() - 1].0 == k);
        } else {
            let sd = s.drop_last();
            if map_of(s).contains_key(k) {
                let i = choose|i: int| 0 <= i < sd.len() && (#[trigger] sd[i]).0 == k;
                assert(s[i].0 == k);
            }
            if exists|i: int| 0 <= i < s.len() && (#[trigger] s[i]).0 == k {
                let i = choose|i: int| 0 <= i < s.len() && (#[trigger] s[i]).0 == k;
                assert(sd[i].0 == k);
            }
        }
    }
}

proof fn lemma_map_of_index(s: Seq<(FlowKey, Option<u64>)>, i: int)
    requires
        unique_keys(s),
        0 <= i < s.len(),
    ensures
        map_of(s).contains_key(s[i].0),
        map_of(s)[s[i].0] == s[i].1,
    decreases s.len(),
{
    if i == s.len() - 1 {
    } else {
        assert(unique_keys(s.drop_last()));
        assert(s.drop_last()[i] == s[i]);
        lemma_map_of_index(s.drop_last(), i);
        assert(s[i].0 != s.last().0);
    }
}

proof fn lemma_map_of_update(s: Seq<(FlowKey, Option<u64>)>, i: int, v: Option<u64>)
    requires
        unique_keys(s),
        0 <= i < s.len(),
    ensures
        map_of(s.update(i, (s[i].0, v))) == map_of(s).insert(s[i].0, v),
    decreases s.len(),
{
    let t = s.update(i, (s[i].0, v));
    if i == s.len() - 1 {
        assert(t.drop_last() =~= s.drop_last());
        assert(t.last() == (s[i].0, v));
        assert(map_of(t) == map_of(s.drop_last()).insert(s[i].0, v));
        assert(map_of(s.drop_last()).insert(s[i].0, s[i].1).insert(s[i].0, v) =~= map_of(
            s.drop_last(),
        ).insert(s[i].0, v));
    } else {
        assert(unique_keys(s.drop_last()));
        assert(s.drop_last()[i] == s[i]);
        lemma_map_of_update(s.drop_last(), i, v);
        assert(t.drop_last() =~= s.drop_last().update(i, (s[i].0, v)));
        assert(t.last() == s.last());
        assert(s[i].0 != s.last().0);
        assert(map_of(s.drop_last()).insert(s[i].0, v).insert(s.last().0, s.last().1) =~= map_of(
            s.drop_last(),
        ).insert(s.last().0, s.last().1).insert(s[i].0, v));
    }
}

impl View for FlowTable {
    type V = Map<FlowKey, Option<u64>>;

    closed spec fn view(&self) -> Map<FlowKey, Option<u64>> {
        map_of(self.entries@)
    }
}

impl FlowTable {
    /// Internal invariant: keys occur once, and stream numbers are fresh —
    /// each below the counter and no two entries sharing one.
    pub closed spec fn wf(&self) -> bool {
        &&& unique_keys(self.entries@)
        &&& ids_ok(self.entries@, self.next_id)
    }

    /// The next stream number to be issued.
    pub closed spec fn next_of(&self) -> u64 {
        self.next_id
    }

    /// A well-formed table's model is well-formed: live numbers are below the
    /// counter and no two keys share one.
    pub proof fn lemma_model_ok(&self)
        requires
            self.wf(),
        ensures
            table_model_ok(self@, self.next_of()),
    {
        let s = self.entries@;
        assert forall|k: FlowKey| #[trigger]
            self@.contains_key(k) implies (self@[k] matches Some(id) ==> id < self.next_id) by {
            lemma_map_of_contains(s, k);
            let i = choose|i: int| 0 <= i < s.len() && (#[trigger] s[i]).0 == k;
            lemma_map_of_index(s, i);
        }
        assert forall|k1: FlowKey, k2: FlowKey| #![trigger self@[k1], self@[k2]]
            self@.contains_key(k1) && self@.contains_key(k2) && self@[k1] is Some && self@[k1]
                == self@[k2] implies k1 == k2 by {
            lemma_map_of_contains(s, k1);
            lemma_map_of_contains(s, k2);
            let i1 = choose|i: int| 0 <= i < s.len() && (#[trigger] s[i]).0 == k1;
            let i2 = choose|i: int| 0 <= i < s.len() && (#[trigger] s[i]).0 == k2;
            lemma_map_of_index(s, i1);
            lemma_map_of_index(s, i2);
            if i1 < i2 {
                assert(s[i2].1 != s[i1].1);
            } else if i2 < i1 {
                assert(s[i1].1 != s[i2].1);
            }
        }
    }

    /// A fresh table: no flow has been seen, no stream number issued.
    pub fn new() -> (t: FlowTable)
        ensures
            t.wf(),
            t@ == Map::<FlowKey, Option<u64>>::empty(),
            t.next_of() == 0,
    {
        FlowTable { entries: Vec::new(), next_id: 0 }
    }

    /// Whether a stream number is still available from the counter.
    pub fn can_open_more(&self) -> (r: bool)
        ensures
            r == (self.next_of() < u64::MAX),
    {
        self.next_id < u64::MAX
    }

    /// The stream currently carrying a key's flow, if one is live.
    pub fn lookup_live(&self, k: &FlowKey) -> (r: Option<u64>)
        requires
            self.wf(),
        ensures
            r == live_of(self@, *k),
    {
        let ghost s = self.entries@;
        let n = self.entries.len();
        let mut i: usize = 0;
        while i < n
            invariant
                n == s.len(),
                i <= n,
                self.wf(),
                s == self.entries@,
                forall|j: int| 0 <= j < i ==> (#[trigger] s[j]).0 != *k,
            decreases n - i,
        {
            if self.entries[i].0 == *k {
                proof {
                    lemma_map_of_index(s, i as int);
                }
                return self.entries[i].1;
            }
            i = i + 1;
        }
        proof {
            lemma_map_of_contains(s, *k);
        }
        None
    }

    /// Record that a fresh outbound stream now carries this key's flow, and
    /// hand back its number — a number never issued before.
    pub fn record_opened(&mut self, k: FlowKey) -> (id: u64)
        requires
            old(self).wf(),
            old(self).next_of() < u64::MAX,
        ensures
            final(self).wf(),
            id == old(self).next_of(),
            final(self).next_of() == old(self).next_of() + 1,
            final(self)@ == old(self)@.insert(k, Some(id)),
            live_of(final(self)@, k) == Some(id),
    {
        let id = self.next_id;
        self.next_id = id + 1;
        let ghost s0 = self.entries@;
        let n = self.entries.len();
        let mut i: usize = 0;
        while i < n
            invariant
                n == s0.len(),
                i <= n,
                s0 == self.entries@,
                s0 == old(self).entries@,
                unique_keys(s0),
                ids_ok(s0, id),
                self.next_id == id + 1,
                id == old(self).next_of(),
                id < u64::MAX,
                forall|j: int| 0 <= j < i ==> (#[trigger] s0[j]).0 != k,
            decreases n - i,
        {
            if self.entries[i].0 == k {
                proof {
                    lemma_map_of_update(s0, i as int, Some(id));
                }
                self.entries[i] = (k, Some(id));
                proof {
                    let t = self.entries@;
                    assert(t == s0.update(i as int, (s0[i as int].0, Some(id))));
                    assert forall|a: int, b: int| 0 <= a < b < t.len() implies (#[trigger] t[a]).0
                        != (#[trigger] t[b]).0 by {
                        assert(s0[a].0 != s0[b].0);
                    }
                    assert forall|a: int|
                        0 <= a < t.len() implies ((#[trigger] t[a]).1 matches Some(x) ==> x < id
                        + 1) by {
                        if a != i {
                            assert(t[a] == s0[a]);
                        }
                    }
                    assert forall|a: int, b: int|
                        0 <= a < b < t.len() && (#[trigger] t[a]).1 is Some implies (
                    #[trigger] t[b]).1 != t[a].1 by {
                        if a != i && b != i {
                            assert(t[a] == s0[a] && t[b] == s0[b]);
                        } else if a == i {
                            assert(t[b] == s0[b]);
                            assert(s0[b].1 matches Some(x) ==> x < id);
                        } else {
                            assert(t[a] == s0[a]);
                            assert(s0[a].1 matches Some(x) ==> x < id);
                        }
                    }
                }
                return id;
            }
            i = i + 1;
        }
        proof {
            lemma_map_of_contains(s0, k);
        }
        self.entries.push((k, Some(id)));
        proof {
            let t = self.entries@;
            assert(t.drop_last() =~= s0);
            assert(t.last() == (k, Some(id)));
            assert(map_of(t) == map_of(s0).insert(k, Some(id)));
            assert forall|a: int, b: int| 0 <= a < b < t.len() implies (#[trigger] t[a]).0 != (
            #[trigger] t[b]).0 by {
                if b == t.len() - 1 {
                    assert(t[a] == s0[a]);
                } else {
                    assert(t[a] == s0[a] && t[b] == s0[b]);
                }
            }
            assert forall|a: int|
                0 <= a < t.len() implies ((#[trigger] t[a]).1 matches Some(x) ==> x < id + 1) by {
                if a != t.len() - 1 {
                    assert(t[a] == s0[a]);
                }
            }
            assert forall|a: int, b: int|
                0 <= a < b < t.len() && (#[trigger] t[a]).1 is Some implies (#[trigger] t[b]).1
                != t[a].1 by {
                assert(t[a] == s0[a]);
                if b == t.len() - 1 {
                    assert(s0[a].1 matches Some(x) ==> x < id);
                } else {
                    assert(t[b] == s0[b]);
                }
            }
        }
        id
    }

    /// Clear the key's entry after a stream write failure: the entry stays,
    /// holding no stream, so the key's next packet opens a fresh one.
    pub fn write_failed(&mut self, k: &FlowKey)
        requires
            old(self).wf(),
        ensures
            final(self).wf(),
            final(self).next_of() == old(self).next_of(),
            old(self)@.contains_key(*k) ==> final(self)@ == old(self)@.insert(*k, None),
            !old(self)@.contains_key(*k) ==> final(self)@ == old(self)@,
            live_of(final(self)@, *k) is None,
    {
        let ghost s0 = self.entries@;
        let n = self.entries.len();
        let mut i: usize = 0;
        while i < n
            invariant
                n == s0.len(),
                i <= n,
                self == old(self),
                s0 == self.entries@,
                old(self).wf(),
                forall|j: int| 0 <= j < i ==> (#[trigger] s0[j]).0 != *k,
            decreases n - i,
        {
            if self.entries[i].0 == *k {
                proof {
                    lemma_map_of_update(s0, i as int, None);
                    lemma_map_of_index(s0, i as int);
                }
                self.entries[i] = (*k, None);
                proof {
                    let t = self.entries@;
                    assert(t == s0.update(i as int, (s0[i as int].0, None::<u64>)));
                    assert forall|a: int, b: int| 0 <= a < b < t.len() implies (#[trigger] t[a]).0
                        != (#[trigger] t[b]).0 by {
                        assert(s0[a].0 != s0[b].0);
                    }
                    assert forall|a: int|
                        0 <= a < t.len() implies ((#[trigger] t[a]).1 matches Some(x) ==> x
                        < self.next_id) by {
                        if a != i {
                            assert(t[a] == s0[a]);
                        }
                    }
                    assert forall|a: int, b: int|
                        0 <= a < b < t.len() && (#[trigger] t[a]).1 is Some implies (
                    #[trigger] t[b]).1 != t[a].1 by {
                        assert(a != i);
                        assert(t[a] == s0[a]);
                        if b != i {
                            assert(t[b] == s0[b]);
                        }
                    }
                }
                return ;
            }
            i = i + 1;
        }
        proof {
            lemma_map_of_contains(s0, *k);
        }
    }
}

} // verus!
