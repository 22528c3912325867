use vstd::prelude::*;

use crate::eq_exact;
use crate::legacy::proxy::{Listener, Proxy};
use crate::legacy::set_modify_message::SetModifyMessage;

verus! {

/// The map an entry sequence denotes: later entries win, though the store
/// keeps its keys distinct anyway.
pub open spec fn entries_map<K, V>(s: Seq<(K, V)>) -> Map<K, V>
    decreases s.len(),
{
    if s.len() == 0 {
        Map::empty()
    } else {
        entries_map(s.drop_last()).insert(s.last().0, s.last().1)
    }
}

/// No two entries carry the same key.
pub open spec fn keys_distinct<K, V>(s: Seq<(K, V)>) -> bool {
    forall|i: int, j: int| 0 <= i < j < s.len() ==> s[i].0 != s[j].0
}

proof fn lemma_entries_map_dom<K, V>(s: Seq<(K, V)>, key: K)
    ensures
        entries_map(s).dom().contains(key) <==> exists|i: int| 0 <= i < s.len() && s[i].0 == key,
    decreases s.len(),
{
    if s.len() > 0 {
        lemma_entries_map_dom(s.drop_last(), key);
        if entries_map(s).dom().contains(key) && s.last().0 != key {
            let i = choose|i: int| 0 <= i < s.drop_last().len() && s.drop_last()[i].0 == key;
            assert(s[i].0 == key);
        }
        if exists|i: int| 0 <= i < s.len() && s[i].0 == key {
            let i = choose|i: int| 0 <= i < s.len() && s[i].0 == key;
            if i < s.len() - 1 {
                assert(s.drop_last()[i].0 == key);
            }
        }
    }
}

proof fn lemma_entries_map_index<K, V>(s: Seq<(K, V)>, i: int)
    requires
        keys_distinct(s),
        0 <= i < s.len(),
    ensures
        entries_map(s).dom().contains(s[i].0),
        entries_map(s)[s[i].0] == s[i].1,
    decreases s.len(),
{
    lemma_entries_map_dom(s, s[i].0);
    if i < s.len() - 1 {
        assert(s.last().0 != s[i].0);
        assert(s.drop_last()[i] == s[i]);
        lemma_entries_map_index(s.drop_last(), i);
    }
}

proof fn lemma_entries_map_finite<K, V>(s: Seq<(K, V)>)
    ensures
        entries_map(s).dom().finite(),
    decreases s.len(),
{
    broadcast use vstd::set::group_set_axioms;

    if s.len() > 0 {
        lemma_entries_map_finite(s.drop_last());
    }
}

proof fn lemma_entries_map_len<K, V>(s: Seq<(K, V)>)
    requires
        keys_distinct(s),
    ensures
        entries_map(s).dom().finite(),
        entries_map(s).dom().len() == s.len(),
    decreases s.len(),
{
    broadcast use vstd::set::group_set_axioms;

    lemma_entries_map_finite(s);
    if s.len() > 0 {
        lemma_entries_map_len(s.drop_last());
        lemma_entries_map_dom(s.drop_last(), s.last().0);
        assert forall|i: int| 0 <= i < s.drop_last().len() implies s.drop_last()[i].0 != s.last().0 by {
            assert(s[i] == s.drop_last()[i]);
        }
        assert(!entries_map(s.drop_last()).dom().contains(s.last().0));
        assert(entries_map(s).dom() =~= entries_map(s.drop_last()).dom().insert(s.last().0));
    }
}

/// A key-to-value store with distinct keys.
pub struct KeyValueStore<K, V> {
    entries: Vec<(K, V)>,
}

impl<K: Copy + PartialEq, V: Copy + PartialEq> KeyValueStore<K, V> {
    /// Creates an empty store.
    pub fn new() -> (r: Self)
        ensures
            r.obj_wf() == (eq_exact::<K>() && eq_exact::<V>()),
            r.model() == Map::<K, V>::empty(),
    {
        let r = KeyValueStore { entries: Vec::new() };
        r
    }

    /// How many keys the store holds.
    pub fn len(&self) -> (r: usize)
        requires
            self.obj_wf(),
        ensures
            self.model().dom().finite(),
            r == self.model().dom().len(),
    {
        proof {
            lemma_entries_map_len(self.entries@);
        }
        self.entries.len()
    }

    /// The position of the entry carrying `key`, if any.
    fn find_key(&self, key: &K) -> (r: Option<usize>)
        requires
            self.obj_wf(),
        ensures
            match r {
                Some(i) => i < self.entries@.len() && self.entries@[i as int].0 == *key,
                None => forall|j: int| 0 <= j < self.entries@.len() ==> self.entries@[j].0 != *key,
            },
    {
        let n = self.entries.len();
        let mut i: usize = 0;
        while i < n
            invariant
                self.obj_wf(),
                n == self.entries@.len(),
                i <= n,
                forall|j: int| 0 <= j < i ==> self.entries@[j].0 != *key,
            decreases n - i,
        {
            if self.entries[i].0 == *key {
                return Some(i);
            }
            i += 1;
        }
        None
    }

    /// The value stored at `key`, if any.
    pub fn get(&self, key: &K) -> (r: Option<&V>)
        requires
            self.obj_wf(),
        ensures
            match r {
                Some(v) => self.model().dom().contains(*key) && *v == self.model()[*key],
                None => !self.model().dom().contains(*key),
            },
    {
        proof {
            lemma_entries_map_dom(self.entries@, *key);
        }
        match self.find_key(key) {
            Some(i) => {
                proof {
                    lemma_entries_map_index(self.entries@, i as int);
                }
                Some(&self.entries[i].1)
            },
            None => None,
        }
    }
}

impl<K: Copy + PartialEq, V: Copy + PartialEq> Listener for KeyValueStore<K, V> {
    type ModifyMessage = SetModifyMessage<(K, V)>;

    type Model = Map<K, V>;

    closed spec fn model(self) -> Map<K, V> {
        entries_map(self.entries@)
    }

    closed spec fn obj_wf(self) -> bool {
        keys_distinct(self.entries@) && eq_exact::<K>() && eq_exact::<V>()
    }

    open spec fn process_ok(self, m: SetModifyMessage<(K, V)>) -> bool {
        true
    }

    open spec fn process_model(s: Map<K, V>, m: SetModifyMessage<(K, V)>) -> Map<K, V> {
        match m {
            SetModifyMessage::Insert((key, value)) => s.insert(key, value),
            SetModifyMessage::Clear() => Map::empty(),
            SetModifyMessage::Remove((key, _value)) => s.remove(key),
            SetModifyMessage::Update((key0, _value0), (key1, value1)) => s.remove(key0).insert(
                key1,
                value1,
            ),
        }
    }

    fn process(&mut self, modify_message: SetModifyMessage<(K, V)>) {
        match modify_message {
            SetModifyMessage::Insert((key, value)) => self.insert_pair(key, value),
            SetModifyMessage::Clear() => {
                self.entries = Vec::new();
                proof {
                    assert(self.model() =~= Map::<K, V>::empty());
                }
            },
            SetModifyMessage::Remove((key, _value)) => self.remove_key(key),
            SetModifyMessage::Update((key0, _value0), (key1, value1)) => {
                self.remove_key(key0);
                self.insert_pair(key1, value1);
            },
        }
    }
}

impl<K: Copy + PartialEq, V: Copy + PartialEq> KeyValueStore<K, V> {
    /// Stores `value` at `key`, replacing what was there.
    fn insert_pair(&mut self, key: K, value: V)
        requires
            old(self).obj_wf(),
        ensures
            final(self).obj_wf(),
            final(self).model() == old(self).model().insert(key, value),
    {
        match self.find_key(&key) {
            Some(i) => {
                let ghost prior = self.entries@;
                self.entries[i] = (key, value);
                proof {
                    assert(self.entries@ =~= prior.update(i as int, (key, value)));
                    lemma_update_same_key(prior, i as int, key, value);
                }
            },
            None => {
                let ghost prior = self.entries@;
                self.entries.push((key, value));
                proof {
                    assert(self.entries@.drop_last() =~= prior);
                }
            },
        }
    }

    /// Drops the entry at `key`, if any.
    fn remove_key(&mut self, key: K)
        requires
            old(self).obj_wf(),
        ensures
            final(self).obj_wf(),
            final(self).model() == old(self).model().remove(key),
    {
        match self.find_key(&key) {
            Some(i) => {
                let ghost prior = self.entries@;
                self.entries.remove(i);
                proof {
                    assert(self.entries@ =~= prior.remove(i as int));
                    lemma_remove_key(prior, i as int);
                    assert forall|a: int, b: int|
                        0 <= a < self.entries@.len() && 0 <= b < self.entries@.len() && a
                        < b implies self.entries@[a].0 != self.entries@[b].0 by {
                        let oa = if a < i { a } else { a + 1 };
                        let ob = if b < i { b } else { b + 1 };
                        assert(self.entries@[a] == prior[oa]);
                        assert(self.entries@[b] == prior[ob]);
                    }
                }
            },
            None => {
                proof {
                    lemma_entries_map_dom(self.entries@, key);
                    assert(self.model().remove(key) =~= self.model());
                }
            },
        }
    }
}

proof fn lemma_update_same_key<K, V>(s: Seq<(K, V)>, i: int, key: K, value: V)
    requires
        keys_distinct(s),
        0 <= i < s.len(),
        s[i].0 == key,
    ensures
        keys_distinct(s.update(i, (key, value))),
        entries_map(s.update(i, (key, value))) == entries_map(s).insert(key, value),
    decreases s.len(),
{
    let s2 = s.update(i, (key, value));
    assert forall|a: int, b: int| 0 <= a < b < s2.len() implies s2[a].0 != s2[b].0 by {
        assert(s2[a].0 == s[a].0);
        assert(s2[b].0 == s[b].0);
    }
    if i == s.len() - 1 {
        assert(s2.drop_last() =~= s.drop_last());
        assert(s2.last() == (key, value));
        assert(entries_map(s2) == entries_map(s.drop_last()).insert(key, value));
        assert(entries_map(s).insert(key, value) =~= entries_map(s.drop_last()).insert(
            key,
            value,
        ));
    } else {
        assert(s2.drop_last() =~= s.drop_last().update(i, (key, value)));
        assert(s2.last() == s.last());
        assert(s.drop_last()[i] == s[i]);
        lemma_update_same_key(s.drop_last(), i, key, value);
        assert(s.last().0 != key);
        assert(entries_map(s2) == entries_map(s.drop_last()).insert(key, value).insert(
            s.last().0,
            s.last().1,
        ));
        assert(entries_map(s.drop_last()).insert(key, value).insert(s.last().0, s.last().1)
            =~= entries_map(s.drop_last()).insert(s.last().0, s.last().1).insert(key, value));
    }
}

proof fn lemma_remove_key<K, V>(s: Seq<(K, V)>, i: int)
    requires
        keys_distinct(s),
        0 <= i < s.len(),
    ensures
        entries_map(s.remove(i)) == entries_map(s).remove(s[i].0),
    decreases s.len(),
{
    let s2 = s.remove(i);
    if i == s.len() - 1 {
        assert(s2 =~= s.drop_last());
        lemma_entries_map_dom(s.drop_last(), s[i].0);
        assert forall|j: int| 0 <= j < s.drop_last().len() implies s.drop_last()[j].0 != s[i].0 by {
            assert(s[j] == s.drop_last()[j]);
        }
        assert(!entries_map(s.drop_last()).dom().contains(s[i].0));
        assert(entries_map(s).remove(s[i].0) =~= entries_map(s.drop_last()));
    } else {
        assert(s2.drop_last() =~= s.drop_last().remove(i));
        assert(s2.last() == s.last());
        assert(s.drop_last()[i] == s[i]);
        lemma_remove_key(s.drop_last(), i);
        assert(s.last().0 != s[i].0);
        assert(entries_map(s2) == entries_map(s.drop_last()).remove(s[i].0).insert(
            s.last().0,
            s.last().1,
        ));
        assert(entries_map(s.drop_last()).remove(s[i].0).insert(s.last().0, s.last().1)
            =~= entries_map(s.drop_last()).insert(s.last().0, s.last().1).remove(s[i].0));
    }
}

/// A keyed store whose every mutation is fanned out to followers.
pub type HashMap<K, V> = Proxy<KeyValueStore<K, V>, SetModifyMessage<(K, V)>>;

impl<K: Copy + PartialEq, V: Copy + PartialEq> HashMap<K, V> {
    /// Creates an empty keyed store with no followers.
    pub fn new() -> (r: Self)
        ensures
            r.object_spec().obj_wf() == (eq_exact::<K>() && eq_exact::<V>()),
            r.object_spec().model() == Map::<K, V>::empty(),
            r.followers_spec().sub_count() == 0,
    {
        Self::from(KeyValueStore::new())
    }

    /// Stores `value` at `key` and notifies the followers: an update message
    /// when the key was already bound, an insert message when it was new.
    pub fn set(&mut self, key: K, value: V)
        requires
            old(self).object_spec().obj_wf(),
        ensures
            final(self).object_spec().obj_wf(),
            final(self).object_spec().model() == old(self).object_spec().model().insert(
                key,
                value,
            ),
            old(self).object_spec().model().dom().contains(key) ==> final(self).followers_spec().delivered(
                old(self).followers_spec(),
                seq![
                    SetModifyMessage::Update(
                        (key, old(self).object_spec().model()[key]),
                        (key, value),
                    )
                ],
            ),
            !old(self).object_spec().model().dom().contains(key) ==> final(self).followers_spec().delivered(
                old(self).followers_spec(),
                seq![SetModifyMessage::Insert((key, value))],
            ),
    {
        let prior = match self.get_object().get(&key) {
            Some(v) => Some(*v),
            None => None,
        };
        match prior {
            Some(old_value) => {
                self.process_and_send(
                    SetModifyMessage::Update((key, old_value), (key, value)),
                );
                proof {
                    assert(final(self).object_spec().model() =~= old(self).object_spec().model().insert(key, value));
                }
            },
            None => {
                self.process_and_send(SetModifyMessage::Insert((key, value)));
            },
        }
    }

    /// Empties the store and notifies the followers.
    pub fn clear(&mut self)
        requires
            old(self).object_spec().obj_wf(),
        ensures
            final(self).object_spec().obj_wf(),
            final(self).object_spec().model() == Map::<K, V>::empty(),
            final(self).followers_spec().delivered(
                old(self).followers_spec(),
                seq![SetModifyMessage::Clear()],
            ),
    {
        self.process_and_send(SetModifyMessage::Clear());
    }

    /// Drops the entry at `key`, if any, and notifies the followers of the
    /// removed pair.
    pub fn remove(&mut self, key: &K)
        requires
            old(self).object_spec().obj_wf(),
        ensures
            final(self).object_spec().obj_wf(),
            final(self).object_spec().model() == old(self).object_spec().model().remove(*key),
            old(self).object_spec().model().dom().contains(*key) ==> final(self).followers_spec().delivered(
                old(self).followers_spec(),
                seq![
                    SetModifyMessage::Remove((*key, old(self).object_spec().model()[*key]))
                ],
            ),
            !old(self).object_spec().model().dom().contains(*key) ==> *final(self)
                == *old(self),
    {
        let prior = match self.get_object().get(key) {
            Some(v) => Some(*v),
            None => None,
        };
        match prior {
            Some(old_value) => {
                self.process_and_send(SetModifyMessage::Remove((*key, old_value)));
            },
            None => {
                proof {
                    assert(old(self).object_spec().model().remove(*key) =~= old(self).object_spec().model());
                }
            },
        }
    }

    /// How many keys the store holds.
    pub fn len(&self) -> (r: usize)
        requires
            self.object_spec().obj_wf(),
        ensures
            r == self.object_spec().model().dom().len(),
    {
        self.get_object().len()
    }

    /// The value stored at `key`, if any.
    pub fn get(&self, key: &K) -> (r: Option<&V>)
        requires
            self.object_spec().obj_wf(),
        ensures
            match r {
                Some(v) => self.object_spec().model().dom().contains(*key) && *v
                    == self.object_spec().model()[*key],
                None => !self.object_spec().model().dom().contains(*key),
            },
    {
        self.get_object().get(key)
    }
}

} // verus!
