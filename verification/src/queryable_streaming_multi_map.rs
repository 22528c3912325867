use vstd::prelude::*;

use crate::eq_exact;
use crate::message_listeners::{MessageListeners, MessageListenersInterface};
use crate::multi_set::{MultiSetMessageListeners, MultiSetModifyMessage};

verus! {

// ---------------------------------------------------------------------------
// The mathematical model of a counting multimap: a sequence of
// (key, value, count) entries, measured by the total multiplicity that the
// entries give to one (key, value) pair.
// ---------------------------------------------------------------------------

/// What one entry contributes to the multiplicity of the pair `(key, value)`.
pub open spec fn entry_contribution<K, V>(e: (K, V, u64), key: K, value: V) -> nat {
    if e.0 == key && e.1 == value {
        e.2 as nat
    } else {
        0
    }
}

/// The multiplicity of the pair `(key, value)` in the entry sequence `s`:
/// the sum of the counts of the entries that carry this pair.
pub open spec fn pair_multiplicity<K, V>(s: Seq<(K, V, u64)>, key: K, value: V) -> nat
    decreases s.len(),
{
    if s.len() == 0 {
        0
    } else {
        entry_contribution(s.last(), key, value) + pair_multiplicity(s.drop_last(), key, value)
    }
}

/// No two entries carry the same (key, value) pair.
pub open spec fn pairs_distinct<K, V>(s: Seq<(K, V, u64)>) -> bool {
    forall|i: int, j: int|
        0 <= i < j < s.len() ==> !(s[i].0 == s[j].0 && s[i].1 == s[j].1)
}

/// Every entry carries a count of at least one.
pub open spec fn counts_positive<K, V>(s: Seq<(K, V, u64)>) -> bool {
    forall|i: int| 0 <= i < s.len() ==> s[i].2 >= 1
}

proof fn lemma_multiplicity_push<K, V>(s: Seq<(K, V, u64)>, e: (K, V, u64), key: K, value: V)
    ensures
        pair_multiplicity(s.push(e), key, value) == pair_multiplicity(s, key, value)
            + entry_contribution(e, key, value),
{
    assert(s.push(e).drop_last() =~= s);
}

proof fn lemma_multiplicity_absent<K, V>(s: Seq<(K, V, u64)>, key: K, value: V)
    requires
        forall|j: int| 0 <= j < s.len() ==> !(s[j].0 == key && s[j].1 == value),
    ensures
        pair_multiplicity(s, key, value) == 0,
    decreases s.len(),
{
    if s.len() > 0 {
        lemma_multiplicity_absent(s.drop_last(), key, value);
    }
}

proof fn lemma_multiplicity_point<K, V>(s: Seq<(K, V, u64)>, i: int, key: K, value: V)
    requires
        pairs_distinct(s),
        0 <= i < s.len(),
        s[i].0 == key,
        s[i].1 == value,
    ensures
        pair_multiplicity(s, key, value) == s[i].2 as nat,
    decreases s.len(),
{
    if i == s.len() - 1 {
        lemma_multiplicity_absent(s.drop_last(), key, value);
    } else {
        lemma_multiplicity_point(s.drop_last(), i, key, value);
    }
}

proof fn lemma_multiplicity_update<K, V>(
    s: Seq<(K, V, u64)>,
    i: int,
    e: (K, V, u64),
    key: K,
    value: V,
)
    requires
        0 <= i < s.len(),
    ensures
        pair_multiplicity(s.update(i, e), key, value) + entry_contribution(s[i], key, value)
            == pair_multiplicity(s, key, value) + entry_contribution(e, key, value),
    decreases s.len(),
{
    if i == s.len() - 1 {
        assert(s.update(i, e).drop_last() =~= s.drop_last());
        assert(s.update(i, e).last() == e);
    } else {
        assert(s.update(i, e).drop_last() =~= s.drop_last().update(i, e));
        assert(s.update(i, e).last() == s.last());
        lemma_multiplicity_update(s.drop_last(), i, e, key, value);
    }
}

proof fn lemma_multiplicity_remove<K, V>(s: Seq<(K, V, u64)>, i: int, key: K, value: V)
    requires
        0 <= i < s.len(),
    ensures
        pair_multiplicity(s.remove(i), key, value) + entry_contribution(s[i], key, value)
            == pair_multiplicity(s, key, value),
    decreases s.len(),
{
    if i == s.len() - 1 {
        assert(s.remove(i) =~= s.drop_last());
    } else {
        assert(s.remove(i).drop_last() =~= s.drop_last().remove(i));
        assert(s.remove(i).last() == s.last());
        lemma_multiplicity_remove(s.drop_last(), i, key, value);
    }
}

/// With well-formed entries, a pair has positive multiplicity exactly when
/// some entry carries it.
proof fn lemma_multiplicity_positive_iff_present<K, V>(s: Seq<(K, V, u64)>, key: K, value: V)
    requires
        pairs_distinct(s),
        counts_positive(s),
    ensures
        pair_multiplicity(s, key, value) > 0 <==> exists|j: int|
            0 <= j < s.len() && s[j].0 == key && s[j].1 == value,
{
    if exists|j: int| 0 <= j < s.len() && s[j].0 == key && s[j].1 == value {
        let j = choose|j: int| 0 <= j < s.len() && s[j].0 == key && s[j].1 == value;
        lemma_multiplicity_point(s, j, key, value);
    } else {
        lemma_multiplicity_absent(s, key, value);
    }
}

// ---------------------------------------------------------------------------
// The two facets of a relation: synchronous point queries, and the full
// mutable relation with its notification fan-out.
// ---------------------------------------------------------------------------

/// The point-query facet of a relation or view: for a key, the set of values
/// currently associated with it, with multiplicities hidden.
pub trait QuerableStreamingMultiMapGetter<K: Copy + PartialEq, V: Copy + PartialEq>: Sized {
    /// Whether the pair `(key, value)` currently shows in this relation.
    spec fn visible(self, key: K, value: V) -> bool;

    /// What must hold of the state for queries to be answered.
    spec fn query_wf(self) -> bool;

    /// All values currently associated with `key`, each exactly once.
    fn get(&self, key: &K) -> (r: Vec<V>)
        requires
            self.query_wf(),
        ensures
            r@.no_duplicates(),
            forall|v: V| r@.contains(v) <==> self.visible(*key, v),
    ;

    /// The unique value associated with `key`, if there is exactly one.
    fn get_one(&self, key: &K) -> (r: Option<V>)
        requires
            self.query_wf(),
        ensures
            match r {
                Some(v) => self.visible(*key, v) && forall|w: V| self.visible(*key, w) ==> w == v,
                None => !(exists|v: V|
                    self.visible(*key, v) && forall|w: V| #[trigger] self.visible(*key, w) ==> w
                        == v),
            },
    {
        let values = self.get(key);
        if values.len() == 1 {
            let v = values[0];
            proof {
                assert(values@.contains(values@[0]));
                assert forall|w: V| self.visible(*key, w) implies w == v by {
                    assert(values@.contains(w));
                    let j = choose|j: int| 0 <= j < values@.len() && values@[j] == w;
                    assert(j == 0);
                }
            }
            Some(v)
        } else {
            proof {
                if values.len() == 0 {
                    assert forall|v: V| !self.visible(*key, v) by {
                        if self.visible(*key, v) {
                            assert(values@.contains(v));
                        }
                    }
                } else {
                    assert(values@.contains(values@[0]));
                    assert(values@.contains(values@[1]));
                    assert(values@[0] != values@[1]);
                }
            }
            None
        }
    }
}

/// A mutable relation (or a view that routes mutations to one), with a
/// refcounted notion of presence and a notification fan-out that reports
/// exactly the presence transitions of visible pairs.
pub trait QuerableStreamingMultiMap<K: Copy + PartialEq, V: Copy + PartialEq>:
    QuerableStreamingMultiMapGetter<K, V> {
    /// The presence refcount of the pair `(key, value)` in the underlying
    /// storage this relation routes its mutations to.
    spec fn multiplicity(self, key: K, value: V) -> nat;

    /// Whether this relation lets the pair show when it is stored: the
    /// base relation admits everything, a filtered view admits what its
    /// predicate accepts. Mutations never change it.
    spec fn admits(self, key: K, value: V) -> bool;

    /// The notification fan-out of this relation.
    spec fn channel(self) -> MultiSetMessageListeners<(K, V)>;

    /// The internal invariant mutations preserve.
    spec fn wf(self) -> bool;

    /// A pair shows exactly when it is stored and admitted.
    proof fn lemma_visible_characterization(self, key: K, value: V)
        ensures
            self.visible(key, value) <==> (self.multiplicity(key, value) > 0 && self.admits(
                key,
                value,
            )),
    ;

    /// A well-formed relation answers queries.
    proof fn lemma_wf_implies_query_wf(self)
        requires
            self.wf(),
        ensures
            self.query_wf(),
    ;

    /// Raises the refcount of `(key, value)` by one. Reports — and notifies
    /// subscribers of — the pair becoming visible, which happens exactly on
    /// the zero-to-one transition of an admitted pair. The state is updated
    /// before any notification is recorded.
    fn insert(&mut self, key: K, value: V) -> (became: bool)
        requires
            old(self).wf(),
            old(self).multiplicity(key, value) < u64::MAX as nat,
        ensures
            final(self).wf(),
            final(self).multiplicity(key, value) == old(self).multiplicity(key, value) + 1,
            forall|k2: K, v2: V|
                !(k2 == key && v2 == value) ==> final(self).multiplicity(k2, v2) == old(self).multiplicity(k2, v2),
            forall|k2: K, v2: V| final(self).admits(k2, v2) == old(self).admits(k2, v2),
            became == (old(self).multiplicity(key, value) == 0 && old(self).admits(key, value)),
            became ==> final(self).channel().delivered(
                old(self).channel(),
                seq![MultiSetModifyMessage::InsertOne((key, value))],
            ),
            !became ==> final(self).channel() == old(self).channel(),
    ;

    /// Lowers the refcount of `(key, value)` by one if the pair is stored.
    /// Returns both facts distinctly: whether the pair was found at all, and
    /// whether it became absent — the latter exactly on the one-to-zero
    /// transition of an admitted pair, which is also when subscribers are
    /// notified. The state is updated before any notification is recorded.
    fn remove(&mut self, key: K, value: V) -> (r: (bool, bool))
        requires
            old(self).wf(),
        ensures
            final(self).wf(),
            r.0 == (old(self).multiplicity(key, value) > 0),
            r.1 == (old(self).multiplicity(key, value) == 1 && old(self).admits(key, value)),
            final(self).multiplicity(key, value) == if old(self).multiplicity(key, value) > 0 {
                (old(self).multiplicity(key, value) - 1) as nat
            } else {
                0
            },
            forall|k2: K, v2: V|
                !(k2 == key && v2 == value) ==> final(self).multiplicity(k2, v2) == old(self).multiplicity(k2, v2),
            forall|k2: K, v2: V| final(self).admits(k2, v2) == old(self).admits(k2, v2),
            r.1 ==> final(self).channel().delivered(
                old(self).channel(),
                seq![MultiSetModifyMessage::RemoveOne((key, value))],
            ),
            !r.1 ==> final(self).channel() == old(self).channel(),
    ;

    /// Registers a subscription on this relation's fan-out.
    fn listen(&mut self) -> (id: usize)
        ensures
            final(self).wf() == old(self).wf(),
            forall|k2: K, v2: V|
                final(self).multiplicity(k2, v2) == old(self).multiplicity(k2, v2),
            forall|k2: K, v2: V| final(self).admits(k2, v2) == old(self).admits(k2, v2),
            final(self).channel().subscribed(old(self).channel()),
            id == old(self).channel().sub_count(),
    ;

    /// Empties subscription `id` and returns its pending notifications in
    /// delivery order.
    fn drain(&mut self, id: usize) -> (msgs: Vec<MultiSetModifyMessage<(K, V)>>)
        requires
            id < old(self).channel().sub_count(),
        ensures
            final(self).wf() == old(self).wf(),
            forall|k2: K, v2: V|
                final(self).multiplicity(k2, v2) == old(self).multiplicity(k2, v2),
            forall|k2: K, v2: V| final(self).admits(k2, v2) == old(self).admits(k2, v2),
            msgs@ == old(self).channel().inbox(id as int),
            final(self).channel().drained(old(self).channel(), id as int),
    ;

    /// Marks subscription `id` inert. Idempotent.
    fn cancel(&mut self, id: usize)
        requires
            id < old(self).channel().sub_count(),
        ensures
            final(self).wf() == old(self).wf(),
            forall|k2: K, v2: V|
                final(self).multiplicity(k2, v2) == old(self).multiplicity(k2, v2),
            forall|k2: K, v2: V| final(self).admits(k2, v2) == old(self).admits(k2, v2),
            final(self).channel().cancelled(old(self).channel(), id as int),
    ;
}

// ---------------------------------------------------------------------------
// The base relation: a presence-counted multimap.
// ---------------------------------------------------------------------------

/// The one mutable base relation: key to set of values, with the presence of
/// each (key, value) pair refcounted so that repeated inserts and removes of
/// the same pair collapse correctly. Queries expose only the set of pairs
/// with positive count; subscribers are notified exactly on the presence
/// transitions of a pair, never on interior count changes.
pub struct StreamingHashMultiMapWithCount<K, V> {
    entries: Vec<(K, V, u64)>,
    listeners: MultiSetMessageListeners<(K, V)>,
}

impl<K: Copy + PartialEq, V: Copy + PartialEq> StreamingHashMultiMapWithCount<K, V> {
    /// The entry sequence, for use in contracts.
    pub closed spec fn entries_seq(self) -> Seq<(K, V, u64)> {
        self.entries@
    }

    /// The storage invariant: one entry per stored pair, counts at least one.
    pub open spec fn storage_wf(self) -> bool {
        &&& pairs_distinct(self.entries_seq())
        &&& counts_positive(self.entries_seq())
    }

    /// Creates an empty relation with no subscribers.
    pub fn new() -> (r: Self)
        ensures
            r.storage_wf(),
            forall|k: K, v: V| r.multiplicity(k, v) == 0,
            r.channel().sub_count() == 0,
    {
        let r = StreamingHashMultiMapWithCount { entries: Vec::new(), listeners: MessageListeners::new() };
        proof {
            assert forall|k: K, v: V| r.multiplicity(k, v) == 0 by {
                assert(r.entries@.len() == 0);
            }
        }
        r
    }

    /// The position of the entry carrying `(key, value)`, if any.
    fn find_entry(&self, key: &K, value: &V) -> (r: Option<usize>)
        requires
            eq_exact::<K>(),
            eq_exact::<V>(),
        ensures
            match r {
                Some(i) => i < self.entries_seq().len() && self.entries_seq()[i as int].0 == *key
                    && self.entries_seq()[i as int].1 == *value,
                None => forall|j: int|
                    0 <= j < self.entries_seq().len() ==> !(self.entries_seq()[j].0 == *key
                        && self.entries_seq()[j].1 == *value),
            },
    {
        let n = self.entries.len();
        let mut i: usize = 0;
        while i < n
            invariant
                eq_exact::<K>(),
                eq_exact::<V>(),
                n == self.entries_seq().len(),
                i <= n,
                forall|j: int|
                    0 <= j < i ==> !(self.entries_seq()[j].0 == *key && self.entries_seq()[j].1
                        == *value),
            decreases n - i,
        {
            let (k, v, _c) = self.entries[i];
            if k == *key && v == *value {
                return Some(i);
            }
            i += 1;
        }
        None
    }
}

impl<K: Copy + PartialEq, V: Copy + PartialEq> QuerableStreamingMultiMapGetter<K, V>
    for StreamingHashMultiMapWithCount<K, V> {
    open spec fn visible(self, key: K, value: V) -> bool {
        pair_multiplicity(self.entries_seq(), key, value) > 0
    }

    open spec fn query_wf(self) -> bool {
        &&& self.storage_wf()
        &&& eq_exact::<K>()
        &&& eq_exact::<V>()
    }

    fn get(&self, key: &K) -> (r: Vec<V>) {
        let mut r: Vec<V> = Vec::new();
        let n = self.entries.len();
        let mut i: usize = 0;
        while i < n
            invariant
                self.query_wf(),
                n == self.entries_seq().len(),
                i <= n,
                r@.no_duplicates(),
                forall|v: V|
                    r@.contains(v) <==> exists|j: int|
                        0 <= j < i && self.entries_seq()[j].0 == *key && #[trigger] self
                            .entries_seq()[j].1 == v,
            decreases n - i,
        {
            let (k, v, _c) = self.entries[i];
            if k == *key {
                proof {
                    broadcast use vstd::seq_lib::lemma_seq_contains_after_push;

                    if r@.contains(v) {
                        let j = choose|j: int|
                            0 <= j < i && self.entries_seq()[j].0 == *key && #[trigger] self
                                .entries_seq()[j].1 == v;
                        assert(!(self.entries_seq()[j].0 == self.entries_seq()[i as int].0
                            && self.entries_seq()[j].1 == self.entries_seq()[i as int].1));
                    }
                }
                let ghost prev = r@;
                r.push(v);
                proof {
                    broadcast use vstd::seq_lib::lemma_seq_contains_after_push;

                    assert forall|w: V|
                        #![trigger r@.contains(w)]
                        r@.contains(w) <==> exists|j: int|
                            0 <= j < i + 1 && self.entries_seq()[j].0 == *key && #[trigger] self
                                .entries_seq()[j].1 == w by {
                        assert(r@.contains(w) <==> prev.contains(w) || w == v);
                        if w == v {
                            assert(self.entries_seq()[i as int].0 == *key);
                            assert(self.entries_seq()[i as int].1 == w);
                        }
                        if r@.contains(w) && w != v {
                            let j = choose|j: int|
                                0 <= j < i && self.entries_seq()[j].0 == *key && #[trigger] self
                                    .entries_seq()[j].1 == w;
                            assert(0 <= j < i + 1 && self.entries_seq()[j].0 == *key
                                && self.entries_seq()[j].1 == w);
                        }
                    }
                }
            } else {
                proof {
                    assert forall|w: V|
                        #![trigger r@.contains(w)]
                        r@.contains(w) <==> exists|j: int|
                            0 <= j < i + 1 && self.entries_seq()[j].0 == *key && #[trigger] self
                                .entries_seq()[j].1 == w by {
                        if r@.contains(w) {
                            let j = choose|j: int|
                                0 <= j < i && self.entries_seq()[j].0 == *key && #[trigger] self
                                    .entries_seq()[j].1 == w;
                            assert(0 <= j < i + 1 && self.entries_seq()[j].0 == *key
                                && self.entries_seq()[j].1 == w);
                        }
                        if exists|j: int|
                            0 <= j < i + 1 && self.entries_seq()[j].0 == *key && #[trigger] self
                                .entries_seq()[j].1 == w {
                            let j = choose|j: int|
                                0 <= j < i + 1 && self.entries_seq()[j].0 == *key && #[trigger] self
                                    .entries_seq()[j].1 == w;
                            assert(j != i);
                        }
                    }
                }
            }
            i += 1;
        }
        proof {
            assert forall|v: V| r@.contains(v) <==> self.visible(*key, v) by {
                lemma_multiplicity_positive_iff_present(self.entries_seq(), *key, v);
            }
        }
        r
    }
}

impl<K: Copy + PartialEq, V: Copy + PartialEq> QuerableStreamingMultiMap<K, V>
    for StreamingHashMultiMapWithCount<K, V> {
    open spec fn multiplicity(self, key: K, value: V) -> nat {
        pair_multiplicity(self.entries_seq(), key, value)
    }

    open spec fn admits(self, key: K, value: V) -> bool {
        true
    }

    closed spec fn channel(self) -> MultiSetMessageListeners<(K, V)> {
        self.listeners
    }

    open spec fn wf(self) -> bool {
        self.query_wf()
    }

    proof fn lemma_visible_characterization(self, key: K, value: V) {
    }

    proof fn lemma_wf_implies_query_wf(self) {
    }

    fn insert(&mut self, key: K, value: V) -> (became: bool) {
        proof {
            lemma_multiplicity_positive_iff_present(self.entries_seq(), key, value);
        }
        match self.find_entry(&key, &value) {
            Some(i) => {
                let c = self.entries[i].2;
                proof {
                    lemma_multiplicity_point(self.entries_seq(), i as int, key, value);
                }
                let ghost prior = self.entries@;
                self.entries[i] = (key, value, c + 1);
                proof {
                    assert(self.entries@ =~= prior.update(i as int, (key, value, (c + 1) as u64)));
                    assert forall|k2: K, v2: V|
                        pair_multiplicity(self.entries@, k2, v2) + entry_contribution(
                            prior[i as int],
                            k2,
                            v2,
                        ) == pair_multiplicity(prior, k2, v2) + entry_contribution(
                            (key, value, (c + 1) as u64),
                            k2,
                            v2,
                        ) by {
                        lemma_multiplicity_update(prior, i as int, (key, value, (c + 1) as u64), k2, v2);
                    }
                }
                false
            },
            None => {
                let ghost prior = self.entries@;
                self.entries.push((key, value, 1));
                proof {
                    assert forall|k2: K, v2: V|
                        pair_multiplicity(self.entries@, k2, v2) == pair_multiplicity(prior, k2, v2)
                            + entry_contribution((key, value, 1u64), k2, v2) by {
                        lemma_multiplicity_push(prior, (key, value, 1u64), k2, v2);
                    }
                    lemma_multiplicity_absent(prior, key, value);
                }
                self.listeners.send(MultiSetModifyMessage::InsertOne((key, value)));
                true
            },
        }
    }

    fn remove(&mut self, key: K, value: V) -> (r: (bool, bool)) {
        proof {
            lemma_multiplicity_positive_iff_present(self.entries_seq(), key, value);
        }
        match self.find_entry(&key, &value) {
            None => {
                proof {
                    lemma_multiplicity_absent(self.entries_seq(), key, value);
                }
                (false, false)
            },
            Some(i) => {
                let c = self.entries[i].2;
                proof {
                    lemma_multiplicity_point(self.entries_seq(), i as int, key, value);
                }
                if c > 1 {
                    let ghost prior = self.entries@;
                    self.entries[i] = (key, value, c - 1);
                    proof {
                        assert(self.entries@ =~= prior.update(i as int, (key, value, (c - 1) as u64)));
                        assert forall|k2: K, v2: V|
                            pair_multiplicity(self.entries@, k2, v2) + entry_contribution(
                                prior[i as int],
                                k2,
                                v2,
                            ) == pair_multiplicity(prior, k2, v2) + entry_contribution(
                                (key, value, (c - 1) as u64),
                                k2,
                                v2,
                            ) by {
                            lemma_multiplicity_update(
                                prior,
                                i as int,
                                (key, value, (c - 1) as u64),
                                k2,
                                v2,
                            );
                        }
                    }
                    (true, false)
                } else {
                    let ghost prior = self.entries@;
                    self.entries.remove(i);
                    proof {
                        assert(self.entries@ =~= prior.remove(i as int));
                        assert forall|k2: K, v2: V|
                            pair_multiplicity(self.entries@, k2, v2) + entry_contribution(
                                prior[i as int],
                                k2,
                                v2,
                            ) == pair_multiplicity(prior, k2, v2) by {
                            lemma_multiplicity_remove(prior, i as int, k2, v2);
                        }
                        assert forall|i2: int, j2: int|
                            0 <= i2 < j2 < self.entries@.len() implies !(self.entries@[i2].0
                            == self.entries@[j2].0 && self.entries@[i2].1
                            == self.entries@[j2].1) by {
                            let oi = if i2 < i { i2 } else { i2 + 1 };
                            let oj = if j2 < i { j2 } else { j2 + 1 };
                            assert(self.entries@[i2] == prior[oi]);
                            assert(self.entries@[j2] == prior[oj]);
                        }
                        assert forall|i2: int|
                            0 <= i2 < self.entries@.len() implies self.entries@[i2].2 >= 1 by {
                            let oi = if i2 < i { i2 } else { i2 + 1 };
                            assert(self.entries@[i2] == prior[oi]);
                        }
                    }
                    self.listeners.send(MultiSetModifyMessage::RemoveOne((key, value)));
                    (true, true)
                }
            },
        }
    }

    fn listen(&mut self) -> (id: usize) {
        self.listeners.listen()
    }

    fn drain(&mut self, id: usize) -> (msgs: Vec<MultiSetModifyMessage<(K, V)>>) {
        self.listeners.drain(id)
    }

    fn cancel(&mut self, id: usize) {
        self.listeners.cancel(id)
    }
}

/// The notifications `set(key, value)` records, given the distinct values
/// `vs` that were associated with `key` beforehand, in the order the removals
/// walked them: one absence per formerly present value, then exactly one
/// presence for `value`.
pub open spec fn set_messages<K: Copy + PartialEq, V: Copy + PartialEq>(
    key: K,
    value: V,
    vs: Seq<V>,
) -> Seq<MultiSetModifyMessage<(K, V)>> {
    vs.map_values(|v2: V| MultiSetModifyMessage::RemoveOne((key, v2))) + seq![
        MultiSetModifyMessage::InsertOne((key, value))
    ]
}

impl<K: Copy + PartialEq, V: Copy + PartialEq> StreamingHashMultiMapWithCount<K, V> {
    /// Dissociates every value currently associated with `key`, driving each
    /// presence count to zero, then inserts `value`: observably a run of
    /// absence notifications, one per formerly present value, followed by
    /// exactly one presence notification. Afterwards `key` maps to exactly
    /// the one value, with a count of one.
    pub fn set(&mut self, key: K, value: V)
        requires
            old(self).wf(),
        ensures
            final(self).wf(),
            final(self).multiplicity(key, value) == 1,
            forall|v2: V| v2 != value ==> final(self).multiplicity(key, v2) == 0,
            forall|k2: K, v2: V|
                k2 != key ==> final(self).multiplicity(k2, v2) == old(self).multiplicity(k2, v2),
            exists|vs: Seq<V>|
                {
                    &&& vs.no_duplicates()
                    &&& (forall|v2: V| vs.contains(v2) <==> old(self).visible(key, v2))
                    &&& final(self).channel().delivered(
                        old(self).channel(),
                        set_messages(key, value, vs),
                    )
                },
    {
        let values = self.get(&key);
        let ghost vs = values@;
        let ghost prior = *self;
        let ghost to_msg = |v2: V| MultiSetModifyMessage::RemoveOne((key, v2));
        proof {
            MessageListeners::lemma_delivered_empty(self.channel());
            assert(vs.take(0) =~= Seq::<V>::empty());
            assert(vs.take(0).map_values(to_msg) =~= Seq::<
                MultiSetModifyMessage<(K, V)>,
            >::empty());
        }
        let n = values.len();
        let mut i: usize = 0;
        while i < n
            invariant
                vs == values@,
                n == vs.len(),
                i <= n,
                vs.no_duplicates(),
                forall|v2: V| vs.contains(v2) <==> prior.visible(key, v2),
                to_msg == (|v2: V| MultiSetModifyMessage::RemoveOne((key, v2))),
                prior.wf(),
                self.wf(),
                forall|v2: V|
                    #![trigger self.multiplicity(key, v2)]
                    self.multiplicity(key, v2) == if vs.take(i as int).contains(v2) {
                        0nat
                    } else {
                        prior.multiplicity(key, v2)
                    },
                forall|k2: K, v2: V|
                    k2 != key ==> self.multiplicity(k2, v2) == prior.multiplicity(k2, v2),
                self.channel().delivered(prior.channel(), vs.take(i as int).map_values(to_msg)),
            decreases n - i,
        {
            let v = values[i];
            let ghost outer = *self;
            proof {
                assert(vs.contains(vs[i as int]));
                assert(!vs.take(i as int).contains(vs[i as int])) by {
                    if vs.take(i as int).contains(vs[i as int]) {
                        let j = choose|j: int| 0 <= j < i && vs.take(i as int)[j] == vs[i as int];
                        assert(vs[j] == vs[i as int]);
                    }
                }
                assert(outer.multiplicity(key, v) > 0);
            }
            // Drive this value's count all the way to zero; only the last
            // decrement, the presence transition, notifies.
            let mut vanished = false;
            while !vanished
                invariant
                    self.wf(),
                    !vanished ==> self.multiplicity(key, v) > 0,
                    !vanished ==> self.channel() == outer.channel(),
                    vanished ==> self.multiplicity(key, v) == 0,
                    vanished ==> self.channel().delivered(
                        outer.channel(),
                        seq![MultiSetModifyMessage::RemoveOne((key, v))],
                    ),
                    forall|v2: V|
                        #![trigger self.multiplicity(key, v2)]
                        v2 != v ==> self.multiplicity(key, v2) == outer.multiplicity(key, v2),
                    forall|k2: K, v2: V|
                        k2 != key ==> self.multiplicity(k2, v2) == outer.multiplicity(k2, v2),
                decreases self.multiplicity(key, v),
            {
                let removed = self.remove(key, v);
                vanished = removed.1;
            }
            proof {
                assert(v == vs[i as int]);
                MessageListeners::lemma_delivered_trans(
                    prior.channel(),
                    outer.channel(),
                    self.channel(),
                    vs.take(i as int).map_values(to_msg),
                    seq![MultiSetModifyMessage::RemoveOne((key, v))],
                );
                assert(vs.take(i as int + 1) =~= vs.take(i as int).push(vs[i as int]));
                assert(vs.take(i as int).map_values(to_msg) + seq![
                    MultiSetModifyMessage::RemoveOne((key, v)),
                ] =~= vs.take(i as int + 1).map_values(to_msg));
                broadcast use vstd::seq_lib::lemma_seq_contains_after_push;

                assert forall|v2: V|
                    #![trigger self.multiplicity(key, v2)]
                    self.multiplicity(key, v2) == if vs.take(i as int + 1).contains(v2) {
                        0nat
                    } else {
                        prior.multiplicity(key, v2)
                    } by {
                    assert(vs.take(i as int + 1).contains(v2) <==> vs.take(i as int).contains(v2)
                        || v2 == vs[i as int]);
                }
            }
            i += 1;
        }
        proof {
            assert(vs.take(n as int) =~= vs);
            assert forall|v2: V| #![trigger self.multiplicity(key, v2)] self.multiplicity(
                key,
                v2,
            ) == 0 by {
                if !vs.contains(v2) {
                    assert(!prior.visible(key, v2));
                    assert(prior.multiplicity(key, v2) == 0);
                }
            }
        }
        let ghost before_insert = *self;
        let became = self.insert(key, value);
        proof {
            assert(became);
            MessageListeners::lemma_delivered_trans(
                prior.channel(),
                before_insert.channel(),
                self.channel(),
                vs.map_values(to_msg),
                seq![MultiSetModifyMessage::InsertOne((key, value))],
            );
            assert(set_messages(key, value, vs) == vs.map_values(to_msg) + seq![
                MultiSetModifyMessage::InsertOne((key, value))
            ]);
        }
    }
}

impl<K, V> MessageListenersInterface<MultiSetModifyMessage<(K, V)>>
    for StreamingHashMultiMapWithCount<K, V> {
    closed spec fn listeners_spec(self) -> MultiSetMessageListeners<(K, V)> {
        self.listeners
    }

    fn listeners(&self) -> (r: &MultiSetMessageListeners<(K, V)>) {
        &self.listeners
    }
}

// ---------------------------------------------------------------------------
// The filtered view.
// ---------------------------------------------------------------------------

/// The predicate closure answers every pair, and deterministically: a single
/// verdict is possible for each pair, so the verdict is a function of the
/// pair alone.
pub open spec fn predicate_total<K, V, Allow: Fn(K, V) -> bool>(allow: Allow) -> bool {
    &&& forall|k: K, v: V| call_requires(allow, (k, v))
    &&& forall|k: K, v: V|
        !(call_ensures(allow, (k, v), true) && call_ensures(allow, (k, v), false))
}

/// The verdict of the predicate closure on one pair.
pub open spec fn predicate_accepts<K, V, Allow: Fn(K, V) -> bool>(
    allow: Allow,
    key: K,
    value: V,
) -> bool {
    call_ensures(allow, (key, value), true)
}

/// A filtered view over a relation it owns: it shows exactly the pairs of the
/// source that its predicate accepts. Queries recompute from the live source
/// on every call — nothing is cached — and mutations are routed through to
/// the source, with this view notifying its own subscribers exactly when the
/// presence of an accepted pair changes.
pub struct FilterQuerableStreamingMultiMap<
    K: Copy + PartialEq,
    V: Copy + PartialEq,
    Source: QuerableStreamingMultiMap<K, V>,
    Allow: Fn(K, V) -> bool,
> {
    source: Source,
    allow: Allow,
    listeners: MultiSetMessageListeners<(K, V)>,
}

impl<
    K: Copy + PartialEq,
    V: Copy + PartialEq,
    Source: QuerableStreamingMultiMap<K, V>,
    Allow: Fn(K, V) -> bool,
> FilterQuerableStreamingMultiMap<K, V, Source, Allow> {
    /// The relation this view filters, for use in contracts.
    pub closed spec fn source_spec(self) -> Source {
        self.source
    }

    /// The verdict of this view's predicate on one pair.
    pub closed spec fn accepts(self, key: K, value: V) -> bool {
        predicate_accepts(self.allow, key, value)
    }

    /// How this view's model derives from its source: it stores what the
    /// source stores, and admits what the source admits and the predicate
    /// accepts.
    pub proof fn lemma_filter_model(self, key: K, value: V)
        ensures
            self.multiplicity(key, value) == self.source_spec().multiplicity(key, value),
            self.admits(key, value) == (self.source_spec().admits(key, value) && self.accepts(
                key,
                value,
            )),
            self.visible(key, value) == (self.source_spec().visible(key, value) && self.accepts(
                key,
                value,
            )),
    {
    }

    /// Builds the filtered view over `source`. The predicate must answer
    /// every pair with a single possible verdict.
    pub fn new(source: Source, allow: Allow) -> (r: Self)
        requires
            predicate_total(allow),
        ensures
            r.source_spec() == source,
            r.wf() == source.wf(),
            forall|k: K, v: V| r.accepts(k, v) == predicate_accepts(allow, (k), (v)),
            r.channel().sub_count() == 0,
    {
        FilterQuerableStreamingMultiMap { source, allow, listeners: MessageListeners::new() }
    }

    /// Tears the view down, releasing the source it was built over.
    pub fn into_source(self) -> (r: Source)
        ensures
            r == self.source_spec(),
    {
        self.source
    }
}

impl<
    K: Copy + PartialEq,
    V: Copy + PartialEq,
    Source: QuerableStreamingMultiMap<K, V>,
    Allow: Fn(K, V) -> bool,
> QuerableStreamingMultiMapGetter<K, V> for FilterQuerableStreamingMultiMap<K, V, Source, Allow> {
    closed spec fn visible(self, key: K, value: V) -> bool {
        self.source.visible(key, value) && predicate_accepts(self.allow, key, value)
    }

    closed spec fn query_wf(self) -> bool {
        self.source.query_wf() && predicate_total(self.allow)
    }

    fn get(&self, key: &K) -> (r: Vec<V>) {
        let values = self.source.get(key);
        let mut r: Vec<V> = Vec::new();
        let n = values.len();
        let mut i: usize = 0;
        while i < n
            invariant
                self.query_wf(),
                n == values@.len(),
                i <= n,
                values@.no_duplicates(),
                forall|v: V| values@.contains(v) <==> self.source.visible(*key, v),
                r@.no_duplicates(),
                forall|v: V|
                    r@.contains(v) <==> (values@.take(i as int).contains(v) && predicate_accepts(
                        self.allow,
                        *key,
                        v,
                    )),
            decreases n - i,
        {
            let v = values[i];
            let ok = (self.allow)(*key, v);
            proof {
                broadcast use vstd::seq_lib::lemma_seq_contains_after_push;

                assert(values@.take(i as int + 1) =~= values@.take(i as int).push(
                    values@[i as int],
                ));
                assert(!values@.take(i as int).contains(values@[i as int])) by {
                    if values@.take(i as int).contains(values@[i as int]) {
                        let j = choose|j: int|
                            0 <= j < i && values@.take(i as int)[j] == values@[i as int];
                        assert(values@[j] == values@[i as int]);
                    }
                }
            }
            if ok {
                proof {
                    assert(!r@.contains(v));
                }
                let ghost prev = r@;
                r.push(v);
                proof {
                    broadcast use vstd::seq_lib::lemma_seq_contains_after_push;

                    assert forall|a: int, b: int|
                        0 <= a < r@.len() && 0 <= b < r@.len() && a != b implies r@[a] != r@[b] by {
                        if a < prev.len() && b < prev.len() {
                            assert(prev[a] != prev[b]);
                        } else if b == prev.len() && a < prev.len() {
                            assert(prev.contains(prev[a]));
                        } else if a == prev.len() && b < prev.len() {
                            assert(prev.contains(prev[b]));
                        }
                    }
                }
            }
            i += 1;
        }
        proof {
            assert(values@.take(n as int) =~= values@);
        }
        r
    }
}

impl<
    K: Copy + PartialEq,
    V: Copy + PartialEq,
    Source: QuerableStreamingMultiMap<K, V>,
    Allow: Fn(K, V) -> bool,
> QuerableStreamingMultiMap<K, V> for FilterQuerableStreamingMultiMap<K, V, Source, Allow> {
    closed spec fn multiplicity(self, key: K, value: V) -> nat {
        self.source.multiplicity(key, value)
    }

    closed spec fn admits(self, key: K, value: V) -> bool {
        self.source.admits(key, value) && predicate_accepts(self.allow, key, value)
    }

    closed spec fn channel(self) -> MultiSetMessageListeners<(K, V)> {
        self.listeners
    }

    closed spec fn wf(self) -> bool {
        self.source.wf() && predicate_total(self.allow)
    }

    proof fn lemma_visible_characterization(self, key: K, value: V) {
        self.source.lemma_visible_characterization(key, value);
    }

    proof fn lemma_wf_implies_query_wf(self) {
        self.source.lemma_wf_implies_query_wf();
    }

    fn insert(&mut self, key: K, value: V) -> (became: bool) {
        let became_source = self.source.insert(key, value);
        if became_source {
            let ok = (self.allow)(key, value);
            if ok {
                self.listeners.send(MultiSetModifyMessage::InsertOne((key, value)));
                return true;
            }
            return false;
        }
        false
    }

    fn remove(&mut self, key: K, value: V) -> (r: (bool, bool)) {
        let removed = self.source.remove(key, value);
        if removed.1 {
            let ok = (self.allow)(key, value);
            if ok {
                self.listeners.send(MultiSetModifyMessage::RemoveOne((key, value)));
                return (removed.0, true);
            }
            return (removed.0, false);
        }
        (removed.0, false)
    }

    fn listen(&mut self) -> (id: usize) {
        self.listeners.listen()
    }

    fn drain(&mut self, id: usize) -> (msgs: Vec<MultiSetModifyMessage<(K, V)>>) {
        self.listeners.drain(id)
    }

    fn cancel(&mut self, id: usize) {
        self.listeners.cancel(id)
    }
}

impl<
    K: Copy + PartialEq,
    V: Copy + PartialEq,
    Source: QuerableStreamingMultiMap<K, V>,
    Allow: Fn(K, V) -> bool,
> MessageListenersInterface<MultiSetModifyMessage<(K, V)>> for FilterQuerableStreamingMultiMap<
    K,
    V,
    Source,
    Allow,
> {
    closed spec fn listeners_spec(self) -> MultiSetMessageListeners<(K, V)> {
        self.listeners
    }

    fn listeners(&self) -> (r: &MultiSetMessageListeners<(K, V)>) {
        &self.listeners
    }
}

/// Filtering a filtered view shows exactly the pairs of the underlying
/// relation that both predicates accept: composed filters are one filter by
/// the conjunction of the predicates.
pub proof fn lemma_filter_compose<
    K: Copy + PartialEq,
    V: Copy + PartialEq,
    Source: QuerableStreamingMultiMap<K, V>,
    Allow1: Fn(K, V) -> bool,
    Allow2: Fn(K, V) -> bool,
>(
    outer: FilterQuerableStreamingMultiMap<
        K,
        V,
        FilterQuerableStreamingMultiMap<K, V, Source, Allow1>,
        Allow2,
    >,
    key: K,
    value: V,
)
    ensures
        outer.visible(key, value) == (outer.source_spec().source_spec().visible(key, value)
            && outer.source_spec().accepts(key, value) && outer.accepts(key, value)),
{
}

// ---------------------------------------------------------------------------
// The join view.
// ---------------------------------------------------------------------------

/// A key-aligned join of two relations it owns: for each key, the full cross
/// product of the two value sets. The join keeps no state of its own — every
/// query recomputes from the live sources, and every notification is derived
/// from the current state of the untouched side at the instant of the
/// triggering mutation, which is routed through `insert_first`,
/// `remove_first` and their second-side counterparts.
pub struct JoinQuerableStreamingMultiMap<
    K: Copy + PartialEq,
    V: Copy + PartialEq,
    V2: Copy + PartialEq,
    Source: QuerableStreamingMultiMap<K, V>,
    Source2: QuerableStreamingMultiMap<K, V2>,
> {
    source: Source,
    source2: Source2,
    listeners: MultiSetMessageListeners<(K, (V, V2))>,
}

impl<
    K: Copy + PartialEq,
    V: Copy + PartialEq,
    V2: Copy + PartialEq,
    Source: QuerableStreamingMultiMap<K, V>,
    Source2: QuerableStreamingMultiMap<K, V2>,
> JoinQuerableStreamingMultiMap<K, V, V2, Source, Source2> {
    /// The first joined relation, for use in contracts.
    pub closed spec fn source_spec(self) -> Source {
        self.source
    }

    /// The second joined relation, for use in contracts.
    pub closed spec fn source2_spec(self) -> Source2 {
        self.source2
    }

    /// The notification fan-out of this view, for use in contracts.
    pub closed spec fn channel(self) -> MultiSetMessageListeners<(K, (V, V2))> {
        self.listeners
    }

    /// Both joined relations are well formed.
    pub open spec fn wf(self) -> bool {
        self.source_spec().wf() && self.source2_spec().wf()
    }

    /// Builds the join of the two relations.
    pub fn new(source: Source, source2: Source2) -> (r: Self)
        ensures
            r.source_spec() == source,
            r.source2_spec() == source2,
            r.channel().sub_count() == 0,
    {
        JoinQuerableStreamingMultiMap { source, source2, listeners: MessageListeners::new() }
    }

    /// Tears the view down, releasing the two sources it was built over. The
    /// sources must outlive the view: they come back intact.
    pub fn into_sources(self) -> (r: (Source, Source2))
        ensures
            r.0 == self.source_spec(),
            r.1 == self.source2_spec(),
    {
        (self.source, self.source2)
    }

    /// Routes an insert to the first relation. Whenever the pair becomes
    /// visible there, this view notifies one new joined pair per value the
    /// second relation currently holds at `key`.
    pub fn insert_first(&mut self, key: K, value: V) -> (became: bool)
        requires
            old(self).wf(),
            old(self).source_spec().multiplicity(key, value) < u64::MAX as nat,
        ensures
            final(self).wf(),
            final(self).source2_spec() == old(self).source2_spec(),
            became == (old(self).source_spec().multiplicity(key, value) == 0 && old(self).source_spec().admits(key, value)),
            final(self).source_spec().multiplicity(key, value) == old(self).source_spec().multiplicity(key, value) + 1,
            forall|k2: K, v2: V|
                !(k2 == key && v2 == value) ==> final(self).source_spec().multiplicity(k2, v2)
                    == old(self).source_spec().multiplicity(k2, v2),
            forall|k2: K, v2: V|
                final(self).source_spec().admits(k2, v2) == old(self).source_spec().admits(k2, v2),
            became ==> final(self).source_spec().channel().delivered(
                old(self).source_spec().channel(),
                seq![MultiSetModifyMessage::InsertOne((key, value))],
            ),
            became ==> exists|others: Seq<V2>|
                {
                    &&& others.no_duplicates()
                    &&& (forall|o: V2|
                        others.contains(o) <==> old(self).source2_spec().visible(key, o))
                    &&& final(self).channel().delivered(
                        old(self).channel(),
                        others.map_values(
                            |o: V2| MultiSetModifyMessage::InsertOne((key, (value, o))),
                        ),
                    )
                },
            !became ==> final(self).source_spec().channel() == old(self).source_spec().channel()
                && final(self).channel() == old(self).channel(),
    {
        let became = self.source.insert(key, value);
        if became {
            proof {
                self.source2.lemma_wf_implies_query_wf();
            }
            let others = self.source2.get(&key);
            let to_msg = |o: V2| -> (m: MultiSetModifyMessage<(K, (V, V2))>)
                ensures
                    m == MultiSetModifyMessage::InsertOne((key, (value, o))),
                { MultiSetModifyMessage::InsertOne((key, (value, o))) };
            let msgs = build_messages(&others, to_msg, Ghost(
                |o: V2| MultiSetModifyMessage::InsertOne((key, (value, o))),
            ));
            self.listeners.send_all(msgs);
        }
        became
    }

    /// Routes a remove to the first relation. Whenever the pair becomes
    /// absent there, this view notifies one removed joined pair per value the
    /// second relation currently holds at `key`.
    pub fn remove_first(&mut self, key: K, value: V) -> (r: (bool, bool))
        requires
            old(self).wf(),
        ensures
            final(self).wf(),
            final(self).source2_spec() == old(self).source2_spec(),
            r.0 == (old(self).source_spec().multiplicity(key, value) > 0),
            r.1 == (old(self).source_spec().multiplicity(key, value) == 1 && old(self).source_spec().admits(key, value)),
            final(self).source_spec().multiplicity(key, value) == if old(self).source_spec().multiplicity(key, value) > 0 {
                (old(self).source_spec().multiplicity(key, value) - 1) as nat
            } else {
                0
            },
            forall|k2: K, v2: V|
                !(k2 == key && v2 == value) ==> final(self).source_spec().multiplicity(k2, v2)
                    == old(self).source_spec().multiplicity(k2, v2),
            forall|k2: K, v2: V|
                final(self).source_spec().admits(k2, v2) == old(self).source_spec().admits(k2, v2),
            r.1 ==> final(self).source_spec().channel().delivered(
                old(self).source_spec().channel(),
                seq![MultiSetModifyMessage::RemoveOne((key, value))],
            ),
            r.1 ==> exists|others: Seq<V2>|
                {
                    &&& others.no_duplicates()
                    &&& (forall|o: V2|
                        others.contains(o) <==> old(self).source2_spec().visible(key, o))
                    &&& final(self).channel().delivered(
                        old(self).channel(),
                        others.map_values(
                            |o: V2| MultiSetModifyMessage::RemoveOne((key, (value, o))),
                        ),
                    )
                },
            !r.1 ==> final(self).source_spec().channel() == old(self).source_spec().channel()
                && final(self).channel() == old(self).channel(),
    {
        let removed = self.source.remove(key, value);
        if removed.1 {
            proof {
                self.source2.lemma_wf_implies_query_wf();
            }
            let others = self.source2.get(&key);
            let to_msg = |o: V2| -> (m: MultiSetModifyMessage<(K, (V, V2))>)
                ensures
                    m == MultiSetModifyMessage::RemoveOne((key, (value, o))),
                { MultiSetModifyMessage::RemoveOne((key, (value, o))) };
            let msgs = build_messages(&others, to_msg, Ghost(
                |o: V2| MultiSetModifyMessage::RemoveOne((key, (value, o))),
            ));
            self.listeners.send_all(msgs);
        }
        removed
    }

    /// Routes an insert to the second relation. Whenever the pair becomes
    /// visible there, this view notifies one new joined pair per value the
    /// first relation currently holds at `key`.
    pub fn insert_second(&mut self, key: K, value2: V2) -> (became: bool)
        requires
            old(self).wf(),
            old(self).source2_spec().multiplicity(key, value2) < u64::MAX as nat,
        ensures
            final(self).wf(),
            final(self).source_spec() == old(self).source_spec(),
            became == (old(self).source2_spec().multiplicity(key, value2) == 0 && old(self).source2_spec().admits(key, value2)),
            final(self).source2_spec().multiplicity(key, value2) == old(self).source2_spec().multiplicity(key, value2) + 1,
            forall|k2: K, v2: V2|
                !(k2 == key && v2 == value2) ==> final(self).source2_spec().multiplicity(k2, v2)
                    == old(self).source2_spec().multiplicity(k2, v2),
            forall|k2: K, v2: V2|
                final(self).source2_spec().admits(k2, v2) == old(self).source2_spec().admits(
                    k2,
                    v2,
                ),
            became ==> final(self).source2_spec().channel().delivered(
                old(self).source2_spec().channel(),
                seq![MultiSetModifyMessage::InsertOne((key, value2))],
            ),
            became ==> exists|others: Seq<V>|
                {
                    &&& others.no_duplicates()
                    &&& (forall|o: V|
                        others.contains(o) <==> old(self).source_spec().visible(key, o))
                    &&& final(self).channel().delivered(
                        old(self).channel(),
                        others.map_values(
                            |o: V| MultiSetModifyMessage::InsertOne((key, (o, value2))),
                        ),
                    )
                },
            !became ==> final(self).source2_spec().channel() == old(self).source2_spec().channel()
                && final(self).channel() == old(self).channel(),
    {
        let became = self.source2.insert(key, value2);
        if became {
            proof {
                self.source.lemma_wf_implies_query_wf();
            }
            let others = self.source.get(&key);
            let to_msg = |o: V| -> (m: MultiSetModifyMessage<(K, (V, V2))>)
                ensures
                    m == MultiSetModifyMessage::InsertOne((key, (o, value2))),
                { MultiSetModifyMessage::InsertOne((key, (o, value2))) };
            let msgs = build_messages(&others, to_msg, Ghost(
                |o: V| MultiSetModifyMessage::InsertOne((key, (o, value2))),
            ));
            self.listeners.send_all(msgs);
        }
        became
    }

    /// Routes a remove to the second relation. Whenever the pair becomes
    /// absent there, this view notifies one removed joined pair per value the
    /// first relation currently holds at `key`.
    pub fn remove_second(&mut self, key: K, value2: V2) -> (r: (bool, bool))
        requires
            old(self).wf(),
        ensures
            final(self).wf(),
            final(self).source_spec() == old(self).source_spec(),
            r.0 == (old(self).source2_spec().multiplicity(key, value2) > 0),
            r.1 == (old(self).source2_spec().multiplicity(key, value2) == 1 && old(self).source2_spec().admits(key, value2)),
            final(self).source2_spec().multiplicity(key, value2) == if old(self).source2_spec().multiplicity(key, value2) > 0 {
                (old(self).source2_spec().multiplicity(key, value2) - 1) as nat
            } else {
                0
            },
            forall|k2: K, v2: V2|
                !(k2 == key && v2 == value2) ==> final(self).source2_spec().multiplicity(k2, v2)
                    == old(self).source2_spec().multiplicity(k2, v2),
            forall|k2: K, v2: V2|
                final(self).source2_spec().admits(k2, v2) == old(self).source2_spec().admits(
                    k2,
                    v2,
                ),
            r.1 ==> final(self).source2_spec().channel().delivered(
                old(self).source2_spec().channel(),
                seq![MultiSetModifyMessage::RemoveOne((key, value2))],
            ),
            r.1 ==> exists|others: Seq<V>|
                {
                    &&& others.no_duplicates()
                    &&& (forall|o: V|
                        others.contains(o) <==> old(self).source_spec().visible(key, o))
                    &&& final(self).channel().delivered(
                        old(self).channel(),
                        others.map_values(
                            |o: V| MultiSetModifyMessage::RemoveOne((key, (o, value2))),
                        ),
                    )
                },
            !r.1 ==> final(self).source2_spec().channel() == old(self).source2_spec().channel()
                && final(self).channel() == old(self).channel(),
    {
        let removed = self.source2.remove(key, value2);
        if removed.1 {
            proof {
                self.source.lemma_wf_implies_query_wf();
            }
            let others = self.source.get(&key);
            let to_msg = |o: V| -> (m: MultiSetModifyMessage<(K, (V, V2))>)
                ensures
                    m == MultiSetModifyMessage::RemoveOne((key, (o, value2))),
                { MultiSetModifyMessage::RemoveOne((key, (o, value2))) };
            let msgs = build_messages(&others, to_msg, Ghost(
                |o: V| MultiSetModifyMessage::RemoveOne((key, (o, value2))),
            ));
            self.listeners.send_all(msgs);
        }
        removed
    }

    /// Registers a subscription on this view's fan-out.
    pub fn listen(&mut self) -> (id: usize)
        ensures
            final(self).source_spec() == old(self).source_spec(),
            final(self).source2_spec() == old(self).source2_spec(),
            final(self).channel().subscribed(old(self).channel()),
            id == old(self).channel().sub_count(),
    {
        self.listeners.listen()
    }

    /// Empties subscription `id` and returns its pending notifications.
    pub fn drain(&mut self, id: usize) -> (msgs: Vec<MultiSetModifyMessage<(K, (V, V2))>>)
        requires
            id < old(self).channel().sub_count(),
        ensures
            final(self).source_spec() == old(self).source_spec(),
            final(self).source2_spec() == old(self).source2_spec(),
            msgs@ == old(self).channel().inbox(id as int),
            final(self).channel().drained(old(self).channel(), id as int),
    {
        self.listeners.drain(id)
    }

    /// Marks subscription `id` inert. Idempotent.
    pub fn cancel(&mut self, id: usize)
        requires
            id < old(self).channel().sub_count(),
        ensures
            final(self).source_spec() == old(self).source_spec(),
            final(self).source2_spec() == old(self).source2_spec(),
            final(self).channel().cancelled(old(self).channel(), id as int),
    {
        self.listeners.cancel(id)
    }
}

impl<
    K: Copy + PartialEq,
    V: Copy + PartialEq,
    V2: Copy + PartialEq,
    Source: QuerableStreamingMultiMap<K, V>,
    Source2: QuerableStreamingMultiMap<K, V2>,
> JoinQuerableStreamingMultiMap<K, V, V2, Source, Source2> where (V, V2): Copy + PartialEq {
    /// How this view's model derives from its sources: a joined pair shows
    /// exactly when both of its components show on their own sides — the
    /// full cross product per key — and queries are answerable whenever both
    /// sides' are.
    pub proof fn lemma_join_model(self, key: K, value: V, value2: V2)
        ensures
            self.visible(key, (value, value2)) == (self.source_spec().visible(key, value)
                && self.source2_spec().visible(key, value2)),
            self.query_wf() == (self.source_spec().query_wf()
                && self.source2_spec().query_wf()),
    {
    }
}

/// Builds one message per value of `items`, in order, through `make`, whose
/// meaning is pinned by the ghost function `spec_make`.
fn build_messages<T: Copy, M: Copy, F: Fn(T) -> M>(
    items: &Vec<T>,
    make: F,
    Ghost(spec_make): Ghost<spec_fn(T) -> M>,
) -> (msgs: Vec<M>)
    requires
        forall|t: T| call_requires(make, (t,)),
        forall|t: T, m: M| call_ensures(make, (t,), m) ==> m == spec_make(t),
    ensures
        msgs@ == items@.map_values(spec_make),
{
    let mut msgs: Vec<M> = Vec::new();
    let n = items.len();
    let mut i: usize = 0;
    while i < n
        invariant
            forall|t: T| call_requires(make, (t,)),
            forall|t: T, m: M| call_ensures(make, (t,), m) ==> m == spec_make(t),
            n == items@.len(),
            i <= n,
            msgs@ == items@.take(i as int).map_values(spec_make),
        decreases n - i,
    {
        let m = make(items[i]);
        msgs.push(m);
        proof {
            assert(msgs@ =~= items@.take(i as int + 1).map_values(spec_make));
        }
        i += 1;
    }
    proof {
        assert(items@.take(n as int) =~= items@);
    }
    msgs
}

impl<
    K: Copy + PartialEq,
    V: Copy + PartialEq,
    V2: Copy + PartialEq,
    Source: QuerableStreamingMultiMap<K, V>,
    Source2: QuerableStreamingMultiMap<K, V2>,
> QuerableStreamingMultiMapGetter<K, (V, V2)> for JoinQuerableStreamingMultiMap<
    K,
    V,
    V2,
    Source,
    Source2,
> where (V, V2): Copy + PartialEq {
    closed spec fn visible(self, key: K, pair: (V, V2)) -> bool {
        self.source.visible(key, pair.0) && self.source2.visible(key, pair.1)
    }

    closed spec fn query_wf(self) -> bool {
        self.source.query_wf() && self.source2.query_wf()
    }

    fn get(&self, key: &K) -> (r: Vec<(V, V2)>) {
        let values = self.source.get(key);
        let values2 = self.source2.get(key);
        let mut r: Vec<(V, V2)> = Vec::new();
        let n = values.len();
        let mut i: usize = 0;
        while i < n
            invariant
                self.query_wf(),
                n == values@.len(),
                i <= n,
                values@.no_duplicates(),
                values2@.no_duplicates(),
                forall|v: V| values@.contains(v) <==> self.source.visible(*key, v),
                forall|v2: V2| values2@.contains(v2) <==> self.source2.visible(*key, v2),
                r@.no_duplicates(),
                forall|p: (V, V2)|
                    r@.contains(p) <==> (values@.take(i as int).contains(p.0)
                        && values2@.contains(p.1)),
            decreases n - i,
        {
            let v = values[i];
            let m = values2.len();
            let mut j: usize = 0;
            proof {
                assert(!values@.take(i as int).contains(values@[i as int])) by {
                    if values@.take(i as int).contains(values@[i as int]) {
                        let a = choose|a: int|
                            0 <= a < i && values@.take(i as int)[a] == values@[i as int];
                        assert(values@[a] == values@[i as int]);
                    }
                }
            }
            while j < m
                invariant
                    self.query_wf(),
                    n == values@.len(),
                    m == values2@.len(),
                    i < n,
                    j <= m,
                    v == values@[i as int],
                    values@.no_duplicates(),
                    values2@.no_duplicates(),
                    !values@.take(i as int).contains(values@[i as int]),
                    forall|v2: V| values@.contains(v2) <==> self.source.visible(*key, v2),
                    forall|v2: V2| values2@.contains(v2) <==> self.source2.visible(*key, v2),
                    r@.no_duplicates(),
                    forall|p: (V, V2)|
                        r@.contains(p) <==> ((values@.take(i as int).contains(p.0)
                            && values2@.contains(p.1)) || (p.0 == v && values2@.take(
                            j as int,
                        ).contains(p.1))),
                decreases m - j,
            {
                let v2 = values2[j];
                proof {
                    assert(!values2@.take(j as int).contains(values2@[j as int])) by {
                        if values2@.take(j as int).contains(values2@[j as int]) {
                            let a = choose|a: int|
                                0 <= a < j && values2@.take(j as int)[a] == values2@[j as int];
                            assert(values2@[a] == values2@[j as int]);
                        }
                    }
                    assert(!r@.contains((v, v2)));
                }
                let ghost prev = r@;
                r.push((v, v2));
                proof {
                    broadcast use vstd::seq_lib::lemma_seq_contains_after_push;

                    assert(values2@.take(j as int + 1) =~= values2@.take(j as int).push(
                        values2@[j as int],
                    ));
                    assert forall|a: int, b: int|
                        0 <= a < r@.len() && 0 <= b < r@.len() && a != b implies r@[a] != r@[b] by {
                        if a < prev.len() && b < prev.len() {
                            assert(prev[a] != prev[b]);
                        } else if b == prev.len() && a < prev.len() {
                            assert(prev.contains(prev[a]));
                        } else if a == prev.len() && b < prev.len() {
                            assert(prev.contains(prev[b]));
                        }
                    }
                }
                j += 1;
            }
            proof {
                assert(values2@.take(m as int) =~= values2@);
                assert(values@.take(i as int + 1) =~= values@.take(i as int).push(
                    values@[i as int],
                ));
                broadcast use vstd::seq_lib::lemma_seq_contains_after_push;

            }
            i += 1;
        }
        proof {
            assert(values@.take(n as int) =~= values@);
        }
        r
    }
}

impl<
    K: Copy + PartialEq,
    V: Copy + PartialEq,
    V2: Copy + PartialEq,
    Source: QuerableStreamingMultiMap<K, V>,
    Source2: QuerableStreamingMultiMap<K, V2>,
> MessageListenersInterface<MultiSetModifyMessage<(K, (V, V2))>> for JoinQuerableStreamingMultiMap<
    K,
    V,
    V2,
    Source,
    Source2,
> {
    closed spec fn listeners_spec(self) -> MultiSetMessageListeners<(K, (V, V2))> {
        self.listeners
    }

    fn listeners(&self) -> (r: &MultiSetMessageListeners<(K, (V, V2))>) {
        &self.listeners
    }
}

// ---------------------------------------------------------------------------
// Group-by: the one combinator that re-materializes storage. A fresh counting
// multimap is kept synchronized with a stream of presence transitions, each
// element re-keyed by a mapping; many source pairs may collide on one
// destination pair, which the fresh map's own refcounting absorbs.
// ---------------------------------------------------------------------------

/// The mapping closure answers every pair, and deterministically.
pub open spec fn mapper_total<K, V, K2, V2, F: Fn(K, V) -> (K2, V2)>(f: F) -> bool {
    &&& forall|k: K, v: V| call_requires(f, (k, v))
    &&& forall|k: K, v: V, a: (K2, V2), b: (K2, V2)|
        call_ensures(f, (k, v), a) && call_ensures(f, (k, v), b) ==> a == b
}

/// The value of the mapping closure on one pair.
pub open spec fn mapper_value<K, V, K2, V2, F: Fn(K, V) -> (K2, V2)>(f: F, k: K, v: V) -> (K2, V2) {
    choose|p: (K2, V2)| call_ensures(f, (k, v), p)
}

/// The refcount of the destination pair `(key2, value2)` after the presence
/// transitions `msgs`, re-keyed by `f`, are applied in order to a count of
/// `c`: each mapped presence raises it, each mapped absence lowers it.
pub open spec fn grouped_multiplicity<K, V, K2, V2>(
    c: nat,
    msgs: Seq<MultiSetModifyMessage<(K, V)>>,
    f: spec_fn(K, V) -> (K2, V2),
    key2: K2,
    value2: V2,
) -> nat
    decreases msgs.len(),
{
    if msgs.len() == 0 {
        c
    } else {
        let c1 = match msgs.first() {
            MultiSetModifyMessage::InsertOne((k, v)) => if f(k, v) == (key2, value2) {
                c + 1
            } else {
                c
            },
            MultiSetModifyMessage::RemoveOne((k, v)) => if f(k, v) == (key2, value2) {
                if c > 0 {
                    (c - 1) as nat
                } else {
                    0
                }
            } else {
                c
            },
        };
        grouped_multiplicity(c1, msgs.drop_first(), f, key2, value2)
    }
}

/// The notifications a freshly grouped map sends while the presence
/// transitions `msgs`, re-keyed by `f`, are applied in order to the counts
/// `counts`: one presence per zero-to-one transition of a destination pair,
/// one absence per one-to-zero transition, nothing in between.
pub open spec fn grouped_emissions<K, V, K2, V2>(
    counts: spec_fn((K2, V2)) -> nat,
    msgs: Seq<MultiSetModifyMessage<(K, V)>>,
    f: spec_fn(K, V) -> (K2, V2),
) -> Seq<MultiSetModifyMessage<(K2, V2)>>
    decreases msgs.len(),
{
    if msgs.len() == 0 {
        Seq::empty()
    } else {
        match msgs.first() {
            MultiSetModifyMessage::InsertOne((k, v)) => {
                let t = f(k, v);
                let head: Seq<MultiSetModifyMessage<(K2, V2)>> = if counts(t) == 0 {
                    seq![MultiSetModifyMessage::InsertOne(t)]
                } else {
                    Seq::empty()
                };
                let counts1 = |x: (K2, V2)|
                    if x == t {
                        (counts(t) + 1) as nat
                    } else {
                        counts(x)
                    };
                head + grouped_emissions(counts1, msgs.drop_first(), f)
            },
            MultiSetModifyMessage::RemoveOne((k, v)) => {
                let t = f(k, v);
                let head: Seq<MultiSetModifyMessage<(K2, V2)>> = if counts(t) == 1 {
                    seq![MultiSetModifyMessage::RemoveOne(t)]
                } else {
                    Seq::empty()
                };
                let counts1 = |x: (K2, V2)|
                    if x == t && counts(t) > 0 {
                        (counts(t) - 1) as nat
                    } else {
                        counts(x)
                    };
                head + grouped_emissions(counts1, msgs.drop_first(), f)
            },
        }
    }
}

impl<K: Copy + PartialEq, V: Copy + PartialEq> MultiSetMessageListeners<(K, V)> {
    /// Allocates a fresh, independent counting multimap of the same shape,
    /// together with a subscription into `self` that feeds it; `group_step`
    /// keeps the new map synchronized.
    pub fn group(&mut self) -> (r: (StreamingHashMultiMapWithCount<K, V>, usize))
        ensures
            final(self).subscribed(*old(self)),
            r.1 == old(self).sub_count(),
            r.0.storage_wf(),
            forall|k: K, v: V| r.0.multiplicity(k, v) == 0,
            r.0.channel().sub_count() == 0,
    {
        let id = self.listen();
        (StreamingHashMultiMapWithCount::new(), id)
    }

    /// Allocates a fresh, independent counting multimap over re-keyed pairs,
    /// together with a subscription into `self` that feeds it; `group_step`
    /// keeps the new map synchronized through the mapping.
    pub fn group_by<K2: Copy + PartialEq, V2: Copy + PartialEq>(&mut self) -> (r: (
        StreamingHashMultiMapWithCount<K2, V2>,
        usize,
    ))
        ensures
            final(self).subscribed(*old(self)),
            r.1 == old(self).sub_count(),
            r.0.storage_wf(),
            forall|k2: K2, v2: V2| r.0.multiplicity(k2, v2) == 0,
            r.0.channel().sub_count() == 0,
    {
        let id = self.listen();
        (StreamingHashMultiMapWithCount::new(), id)
    }

    /// Group-by specialized to swapping key and value: the reversed relation.
    pub fn reversed(&mut self) -> (r: (StreamingHashMultiMapWithCount<V, K>, usize))
        ensures
            final(self).subscribed(*old(self)),
            r.1 == old(self).sub_count(),
            r.0.storage_wf(),
            forall|v: V, k: K| r.0.multiplicity(v, k) == 0,
            r.0.channel().sub_count() == 0,
    {
        self.group_by()
    }
}

/// Applies a run of drained presence transitions to the grouped map
/// `target`, re-keying each element by `f`: mapped presences are inserted,
/// mapped absences removed, in order. The resulting counts and the
/// notifications `target` sends are exactly the fold of the messages over
/// `target`'s prior state. The messages come from `drain` on any relation or
/// fan-out the grouped map was subscribed to.
#[verifier::loop_isolation(false)]
pub fn group_step<
    K: Copy + PartialEq,
    V: Copy + PartialEq,
    K2: Copy + PartialEq,
    V2: Copy + PartialEq,
    F: Fn(K, V) -> (K2, V2),
>(
    target: &mut StreamingHashMultiMapWithCount<K2, V2>,
    msgs: &Vec<MultiSetModifyMessage<(K, V)>>,
    f: &F,
)
    requires
        old(target).wf(),
        mapper_total(*f),
        forall|k2: K2, v2: V2| old(target).multiplicity(k2, v2) + msgs@.len() <= u64::MAX,
    ensures
        final(target).wf(),
        forall|k2: K2, v2: V2|
            final(target).multiplicity(k2, v2) == grouped_multiplicity(
                old(target).multiplicity(k2, v2),
                msgs@,
                |k: K, v: V| mapper_value(*f, k, v),
                k2,
                v2,
            ),
        final(target).channel().delivered(
            old(target).channel(),
            grouped_emissions(
                |t: (K2, V2)| old(target).multiplicity(t.0, t.1),
                msgs@,
                |k: K, v: V| mapper_value(*f, k, v),
            ),
        ),
{
    let ghost fspec = |k: K, v: V| mapper_value(*f, k, v);
    let ghost counts0 = |t: (K2, V2)| old(target).multiplicity(t.0, t.1);
    let ghost mut emitted: Seq<MultiSetModifyMessage<(K2, V2)>> = Seq::empty();
    proof {
        MessageListeners::lemma_delivered_empty(old(target).channel());
        assert(msgs@.skip(0) =~= msgs@);
    }
    let n = msgs.len();
    let mut i: usize = 0;
    while i < n
        invariant
            n == msgs@.len(),
            i <= n,
            mapper_total(*f),
            target.wf(),
            forall|k2: K2, v2: V2|
                target.multiplicity(k2, v2) + (n - i) <= u64::MAX,
            forall|k2: K2, v2: V2|
                grouped_multiplicity(target.multiplicity(k2, v2), msgs@.skip(i as int), fspec, k2, v2)
                    == grouped_multiplicity(old(target).multiplicity(k2, v2), msgs@, fspec, k2, v2),
            target.channel().delivered(old(target).channel(), emitted),
            grouped_emissions(counts0, msgs@, fspec) == emitted + grouped_emissions(
                |t: (K2, V2)| target.multiplicity(t.0, t.1),
                msgs@.skip(i as int),
                fspec,
            ),
        decreases n - i,
    {
        let m = msgs[i];
        let ghost pre = *target;
        let ghost rest = msgs@.skip(i as int);
        proof {
            assert(rest.first() == msgs@[i as int]);
            assert(rest.drop_first() =~= msgs@.skip(i as int + 1));
        }
        let ghost head: Seq<MultiSetModifyMessage<(K2, V2)>>;
        match m {
            MultiSetModifyMessage::InsertOne((k, v)) => {
                let t = f(k, v);
                proof {
                    assert(exists|p: (K2, V2)| call_ensures(*f, (k, v), p));
                    assert(call_ensures(*f, (k, v), mapper_value(*f, k, v)));
                    assert(t == fspec(k, v));
                    head =
                    if pre.multiplicity(t.0, t.1) == 0 {
                        seq![MultiSetModifyMessage::InsertOne(t)]
                    } else {
                        Seq::empty()
                    };
                }
                let became = target.insert(t.0, t.1);
                proof {
                    if became {
                        assert(head =~= seq![
                            MultiSetModifyMessage::InsertOne((t.0, t.1)),
                        ]);
                    }
                }
            },
            MultiSetModifyMessage::RemoveOne((k, v)) => {
                let t = f(k, v);
                proof {
                    assert(exists|p: (K2, V2)| call_ensures(*f, (k, v), p));
                    assert(call_ensures(*f, (k, v), mapper_value(*f, k, v)));
                    assert(t == fspec(k, v));
                    head =
                    if pre.multiplicity(t.0, t.1) == 1 {
                        seq![MultiSetModifyMessage::RemoveOne(t)]
                    } else {
                        Seq::empty()
                    };
                }
                let removed = target.remove(t.0, t.1);
                proof {
                    if removed.1 {
                        assert(head =~= seq![
                            MultiSetModifyMessage::RemoveOne((t.0, t.1)),
                        ]);
                    }
                }
            },
        }
        proof {
            MessageListeners::lemma_delivered_trans(
                old(target).channel(),
                pre.channel(),
                target.channel(),
                emitted,
                head,
            );
            if head.len() == 0 {
                assert(emitted + head =~= emitted);
                assert(target.channel().delivered(old(target).channel(), emitted + head));
            }
            // The fold over the remaining suffix continues from the updated
            // counts: its starting counts function agrees pointwise with the
            // updated map.
            let counts_pre = |t: (K2, V2)| pre.multiplicity(t.0, t.1);
            let counts_now = |t: (K2, V2)| target.multiplicity(t.0, t.1);
            match rest.first() {
                MultiSetModifyMessage::InsertOne((k, v)) => {
                    let t = fspec(k, v);
                    let counts1 = |x: (K2, V2)|
                        if x == t {
                            (counts_pre(t) + 1) as nat
                        } else {
                            counts_pre(x)
                        };
                    assert(counts1 =~= counts_now);
                    assert(grouped_emissions(counts_pre, rest, fspec) == head + grouped_emissions(
                        counts_now,
                        rest.drop_first(),
                        fspec,
                    ));
                },
                MultiSetModifyMessage::RemoveOne((k, v)) => {
                    let t = fspec(k, v);
                    let counts1 = |x: (K2, V2)|
                        if x == t && counts_pre(t) > 0 {
                            (counts_pre(t) - 1) as nat
                        } else {
                            counts_pre(x)
                        };
                    assert(counts1 =~= counts_now);
                    assert(grouped_emissions(counts_pre, rest, fspec) == head + grouped_emissions(
                        counts_now,
                        rest.drop_first(),
                        fspec,
                    ));
                },
            }
            assert(emitted + (head + grouped_emissions(counts_now, rest.drop_first(), fspec))
                =~= (emitted + head) + grouped_emissions(counts_now, rest.drop_first(), fspec));
            emitted = emitted + head;
            assert forall|k2: K2, v2: V2|
                grouped_multiplicity(
                    target.multiplicity(k2, v2),
                    msgs@.skip(i as int + 1),
                    fspec,
                    k2,
                    v2,
                ) == grouped_multiplicity(
                    old(target).multiplicity(k2, v2),
                    msgs@,
                    fspec,
                    k2,
                    v2,
                ) by {
                assert(grouped_multiplicity(pre.multiplicity(k2, v2), rest, fspec, k2, v2)
                    == grouped_multiplicity(old(target).multiplicity(k2, v2), msgs@, fspec, k2, v2));
            }
        }
        i += 1;
    }
    proof {
        assert(msgs@.skip(n as int) =~= Seq::<MultiSetModifyMessage<(K, V)>>::empty());
        assert(emitted + grouped_emissions(
            |t: (K2, V2)| target.multiplicity(t.0, t.1),
            msgs@.skip(n as int),
            fspec,
        ) =~= emitted);
    }
}

} // verus!
