use vstd::prelude::*;

use crate::eq_exact;
use crate::legacy::proxy::{Listener, Proxy};

verus! {

/// A mutation of a set of elements.
#[derive(Clone, Copy, Debug, PartialEq, Eq)]
pub enum SetModifyMessage<T> {
    Insert(T),
    Clear(),
    Remove(T),
    Update(T, T),
}

/// A set of elements, stored without duplicates.
pub struct ValueSet<T> {
    items: Vec<T>,
}

impl<T: Copy + PartialEq> ValueSet<T> {
    /// Creates an empty set.
    pub fn new() -> (r: Self)
        ensures
            r.obj_wf() == eq_exact::<T>(),
            r.model() == Set::<T>::empty(),
    {
        let r = ValueSet { items: Vec::new() };
        proof {
            assert(r.items@.to_set() =~= Set::<T>::empty());
        }
        r
    }

    /// How many elements the set holds.
    pub fn len(&self) -> (r: usize)
        requires
            self.obj_wf(),
        ensures
            r == self.model().len(),
    {
        proof {
            self.items@.unique_seq_to_set();
        }
        self.items.len()
    }

    /// The stored element equal to `el`, if the set holds one.
    pub fn get(&self, el: &T) -> (r: Option<&T>)
        requires
            self.obj_wf(),
        ensures
            match r {
                Some(v) => self.model().contains(*v) && *v == *el,
                None => !self.model().contains(*el),
            },
    {
        let n = self.items.len();
        let mut i: usize = 0;
        while i < n
            invariant
                self.obj_wf(),
                n == self.items@.len(),
                i <= n,
                forall|j: int| 0 <= j < i ==> self.items@[j] != *el,
            decreases n - i,
        {
            if self.items[i] == *el {
                return Some(&self.items[i]);
            }
            i += 1;
        }
        proof {
            if self.model().contains(*el) {
                let j = choose|j: int| 0 <= j < self.items@.len() && self.items@[j] == *el;
            }
        }
        None
    }

    /// Adds `el` if it is not yet held.
    fn insert_item(&mut self, el: T)
        requires
            old(self).obj_wf(),
        ensures
            final(self).obj_wf(),
            final(self).model() == old(self).model().insert(el),
    {
        let n = self.items.len();
        let mut i: usize = 0;
        while i < n
            invariant
                self.obj_wf(),
                n == self.items@.len(),
                i <= n,
                forall|j: int| 0 <= j < i ==> self.items@[j] != el,
            decreases n - i,
        {
            if self.items[i] == el {
                proof {
                    assert(self.model().contains(el));
                    assert(self.model().insert(el) =~= self.model());
                }
                return ;
            }
            i += 1;
        }
        let ghost prev = self.items@;
        self.items.push(el);
        proof {
            broadcast use vstd::seq_lib::lemma_seq_contains_after_push;

            assert forall|a: int, b: int|
                0 <= a < self.items@.len() && 0 <= b < self.items@.len() && a != b implies self
                .items@[a] != self.items@[b] by {
                if a < prev.len() && b < prev.len() {
                    assert(prev[a] != prev[b]);
                }
            }
            assert(self.items@.to_set() =~= prev.to_set().insert(el));
        }
    }

    /// Drops `el` if it is held.
    fn remove_item(&mut self, el: T)
        requires
            old(self).obj_wf(),
        ensures
            final(self).obj_wf(),
            final(self).model() == old(self).model().remove(el),
    {
        let n = self.items.len();
        let mut i: usize = 0;
        while i < n
            invariant
                self.obj_wf(),
                self.items@ == old(self).items@,
                n == self.items@.len(),
                i <= n,
                forall|j: int| 0 <= j < i ==> self.items@[j] != el,
            decreases n - i,
        {
            if self.items[i] == el {
                let ghost prev = self.items@;
                self.items.remove(i);
                proof {
                    assert forall|x: T| self.items@.contains(x) <==> (prev.contains(x) && x
                        != el) by {
                        if self.items@.contains(x) {
                            let a = choose|a: int|
                                0 <= a < self.items@.len() && self.items@[a] == x;
                            let oa = if a < i { a } else { a + 1 };
                            assert(prev[oa] == x);
                            assert(oa != i);
                        }
                        if prev.contains(x) && x != el {
                            let a = choose|a: int| 0 <= a < prev.len() && prev[a] == x;
                            let na = if a < i { a } else { a - 1 };
                            assert(a != i);
                            assert(self.items@[na] == x);
                        }
                    }
                    assert forall|a: int, b: int|
                        0 <= a < self.items@.len() && 0 <= b < self.items@.len() && a
                        != b implies self.items@[a] != self.items@[b] by {
                        let oa = if a < i { a } else { a + 1 };
                        let ob = if b < i { b } else { b + 1 };
                        assert(self.items@[a] == prev[oa]);
                        assert(self.items@[b] == prev[ob]);
                    }
                    assert(self.items@.to_set() =~= prev.to_set().remove(el));
                }
                return ;
            }
            i += 1;
        }
        proof {
            if self.model().contains(el) {
                let j = choose|j: int| 0 <= j < self.items@.len() && self.items@[j] == el;
            }
            assert(self.model().remove(el) =~= self.model());
        }
    }
}

impl<T: Copy + PartialEq> Listener for ValueSet<T> {
    type ModifyMessage = SetModifyMessage<T>;

    type Model = Set<T>;

    closed spec fn model(self) -> Set<T> {
        self.items@.to_set()
    }

    closed spec fn obj_wf(self) -> bool {
        self.items@.no_duplicates() && eq_exact::<T>()
    }

    open spec fn process_ok(self, m: SetModifyMessage<T>) -> bool {
        true
    }

    open spec fn process_model(s: Set<T>, m: SetModifyMessage<T>) -> Set<T> {
        match m {
            SetModifyMessage::Insert(el) => s.insert(el),
            SetModifyMessage::Clear() => Set::empty(),
            SetModifyMessage::Remove(el) => s.remove(el),
            SetModifyMessage::Update(prior, next) => s.remove(prior).insert(next),
        }
    }

    fn process(&mut self, modify_message: SetModifyMessage<T>) {
        match modify_message {
            SetModifyMessage::Insert(el) => self.insert_item(el),
            SetModifyMessage::Clear() => {
                self.items = Vec::new();
                proof {
                    assert(self.items@.to_set() =~= Set::<T>::empty());
                }
            },
            SetModifyMessage::Remove(el) => self.remove_item(el),
            SetModifyMessage::Update(prior, next) => {
                self.remove_item(prior);
                self.insert_item(next);
            },
        }
    }
}

impl<T: Copy + PartialEq> Proxy<ValueSet<T>, SetModifyMessage<T>> {
    /// Adds an element and notifies the followers.
    pub fn insert(&mut self, el: T)
        requires
            old(self).object_spec().obj_wf(),
        ensures
            final(self).object_spec().obj_wf(),
            final(self).object_spec().model() == old(self).object_spec().model().insert(el),
            final(self).followers_spec().delivered(
                old(self).followers_spec(),
                seq![SetModifyMessage::Insert(el)],
            ),
    {
        self.process_and_send(SetModifyMessage::Insert(el));
    }

    /// Empties the set and notifies the followers.
    pub fn clear(&mut self)
        requires
            old(self).object_spec().obj_wf(),
        ensures
            final(self).object_spec().obj_wf(),
            final(self).object_spec().model() == Set::<T>::empty(),
            final(self).followers_spec().delivered(
                old(self).followers_spec(),
                seq![SetModifyMessage::Clear()],
            ),
    {
        self.process_and_send(SetModifyMessage::Clear());
    }

    /// Drops an element and notifies the followers.
    pub fn remove(&mut self, el: &T)
        requires
            old(self).object_spec().obj_wf(),
        ensures
            final(self).object_spec().obj_wf(),
            final(self).object_spec().model() == old(self).object_spec().model().remove(*el),
            final(self).followers_spec().delivered(
                old(self).followers_spec(),
                seq![SetModifyMessage::Remove(*el)],
            ),
    {
        self.process_and_send(SetModifyMessage::Remove(*el));
    }

    /// Replaces one element with another and notifies the followers.
    pub fn update(&mut self, prior: &T, next: T)
        requires
            old(self).object_spec().obj_wf(),
        ensures
            final(self).object_spec().obj_wf(),
            final(self).object_spec().model() == old(self).object_spec().model().remove(
                *prior,
            ).insert(next),
            final(self).followers_spec().delivered(
                old(self).followers_spec(),
                seq![SetModifyMessage::Update(*prior, next)],
            ),
    {
        self.process_and_send(SetModifyMessage::Update(*prior, next));
    }

    /// How many elements the set holds.
    pub fn len(&self) -> (r: usize)
        requires
            self.object_spec().obj_wf(),
        ensures
            r == self.object_spec().model().len(),
    {
        self.get_object().len()
    }

    /// The stored element equal to `el`, if the set holds one.
    pub fn get(&self, el: &T) -> (r: Option<&T>)
        requires
            self.object_spec().obj_wf(),
        ensures
            match r {
                Some(v) => self.object_spec().model().contains(*v) && *v == *el,
                None => !self.object_spec().model().contains(*el),
            },
    {
        self.get_object().get(el)
    }
}

} // verus!
