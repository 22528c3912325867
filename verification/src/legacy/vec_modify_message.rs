use vstd::prelude::*;

use crate::legacy::proxy::{Listener, Proxy};

verus! {

/// A mutation of a vector of elements.
pub enum VecModifyMessage<T> {
    ReplaceAll(Vec<T>),
    Insert(usize, T),
    SetAt(usize, T),
    Push(T),
    Clear(),
    Remove(usize),
}

/// Two vector mutations mean the same thing: they are equal, up to the
/// identity of the vector a wholesale replacement carries.
pub open spec fn vec_message_agrees<T>(a: VecModifyMessage<T>, b: VecModifyMessage<T>) -> bool {
    match (a, b) {
        (VecModifyMessage::ReplaceAll(va), VecModifyMessage::ReplaceAll(vb)) => va@ == vb@,
        _ => a == b,
    }
}

/// Reproduces the element sequence of a vector of plain values.
fn copy_vec<T: Copy>(v: &Vec<T>) -> (r: Vec<T>)
    ensures
        r@ == v@,
{
    let mut r: Vec<T> = Vec::new();
    let n = v.len();
    let mut i: usize = 0;
    while i < n
        invariant
            n == v@.len(),
            i <= n,
            r@ == v@.take(i as int),
        decreases n - i,
    {
        r.push(v[i]);
        proof {
            assert(r@ =~= v@.take(i as int + 1));
        }
        i += 1;
    }
    proof {
        assert(v@.take(n as int) =~= v@);
    }
    r
}

/// Reproduces a vector mutation message, exact up to `vec_message_agrees`.
fn duplicate_vec_message<T: Copy>(m: &VecModifyMessage<T>) -> (r: VecModifyMessage<T>)
    ensures
        vec_message_agrees(*m, r),
{
    match m {
        VecModifyMessage::ReplaceAll(v) => VecModifyMessage::ReplaceAll(copy_vec(v)),
        VecModifyMessage::Insert(i, el) => VecModifyMessage::Insert(*i, *el),
        VecModifyMessage::SetAt(i, el) => VecModifyMessage::SetAt(*i, *el),
        VecModifyMessage::Push(el) => VecModifyMessage::Push(*el),
        VecModifyMessage::Clear() => VecModifyMessage::Clear(),
        VecModifyMessage::Remove(i) => VecModifyMessage::Remove(*i),
    }
}

impl<T: Copy> Listener for Vec<T> {
    type ModifyMessage = VecModifyMessage<T>;

    type Model = Seq<T>;

    open spec fn model(self) -> Seq<T> {
        self@
    }

    open spec fn obj_wf(self) -> bool {
        true
    }

    open spec fn process_ok(self, m: VecModifyMessage<T>) -> bool {
        match m {
            VecModifyMessage::ReplaceAll(_) => true,
            VecModifyMessage::Insert(i, _) => i <= self@.len(),
            VecModifyMessage::SetAt(i, _) => i < self@.len(),
            VecModifyMessage::Push(_) => true,
            VecModifyMessage::Clear() => true,
            VecModifyMessage::Remove(i) => i < self@.len(),
        }
    }

    open spec fn process_model(s: Seq<T>, m: VecModifyMessage<T>) -> Seq<T> {
        match m {
            VecModifyMessage::ReplaceAll(v) => v@,
            VecModifyMessage::Insert(i, el) => s.insert(i as int, el),
            VecModifyMessage::SetAt(i, el) => s.update(i as int, el),
            VecModifyMessage::Push(el) => s.push(el),
            VecModifyMessage::Clear() => Seq::empty(),
            VecModifyMessage::Remove(i) => s.remove(i as int),
        }
    }

    fn process(&mut self, modify_message: VecModifyMessage<T>) {
        match modify_message {
            VecModifyMessage::ReplaceAll(v) => {
                *self = v;
            },
            VecModifyMessage::Insert(i, el) => {
                self.insert(i, el);
            },
            VecModifyMessage::SetAt(i, el) => {
                self[i] = el;
            },
            VecModifyMessage::Push(el) => {
                self.push(el);
            },
            VecModifyMessage::Clear() => {
                *self = Vec::new();
                proof {
                    assert(self@ =~= Seq::<T>::empty());
                }
            },
            VecModifyMessage::Remove(i) => {
                self.remove(i);
            },
        }
    }
}

impl<T: Copy> Proxy<Vec<T>, VecModifyMessage<T>> {
    /// Replaces the whole vector and notifies the followers.
    pub fn set(&mut self, vec: Vec<T>)
        ensures
            final(self).object_spec()@ == vec@,
            final(self).followers_spec().delivered_matching(
                old(self).followers_spec(),
                VecModifyMessage::ReplaceAll(vec),
                |a: VecModifyMessage<T>, b: VecModifyMessage<T>| vec_message_agrees(a, b),
            ),
    {
        self.send_message(VecModifyMessage::ReplaceAll(vec));
    }

    /// Inserts an element at position `i` and notifies the followers.
    pub fn insert(&mut self, i: usize, el: T)
        requires
            i <= old(self).object_spec()@.len(),
        ensures
            final(self).object_spec()@ == old(self).object_spec()@.insert(i as int, el),
            final(self).followers_spec().delivered_matching(
                old(self).followers_spec(),
                VecModifyMessage::Insert(i, el),
                |a: VecModifyMessage<T>, b: VecModifyMessage<T>| vec_message_agrees(a, b),
            ),
    {
        self.send_message(VecModifyMessage::Insert(i, el));
    }

    /// Appends an element and notifies the followers.
    pub fn push(&mut self, el: T)
        ensures
            final(self).object_spec()@ == old(self).object_spec()@.push(el),
            final(self).followers_spec().delivered_matching(
                old(self).followers_spec(),
                VecModifyMessage::Push(el),
                |a: VecModifyMessage<T>, b: VecModifyMessage<T>| vec_message_agrees(a, b),
            ),
    {
        self.send_message(VecModifyMessage::Push(el));
    }

    /// Empties the vector and notifies the followers.
    pub fn clear(&mut self)
        ensures
            final(self).object_spec()@ == Seq::<T>::empty(),
            final(self).followers_spec().delivered_matching(
                old(self).followers_spec(),
                VecModifyMessage::Clear(),
                |a: VecModifyMessage<T>, b: VecModifyMessage<T>| vec_message_agrees(a, b),
            ),
    {
        self.send_message(VecModifyMessage::Clear());
    }

    /// Removes the element at position `i` and notifies the followers.
    pub fn remove(&mut self, i: usize)
        requires
            i < old(self).object_spec()@.len(),
        ensures
            final(self).object_spec()@ == old(self).object_spec()@.remove(i as int),
            final(self).followers_spec().delivered_matching(
                old(self).followers_spec(),
                VecModifyMessage::Remove(i),
                |a: VecModifyMessage<T>, b: VecModifyMessage<T>| vec_message_agrees(a, b),
            ),
    {
        self.send_message(VecModifyMessage::Remove(i));
    }

    /// How many elements the vector holds.
    pub fn len(&self) -> (r: usize)
        ensures
            r == self.object_spec()@.len(),
    {
        self.get_object().len()
    }

    /// The element at position `i`, if it is in range.
    pub fn get(&self, i: usize) -> (r: Option<&T>)
        ensures
            match r {
                Some(v) => i < self.object_spec()@.len() && *v == self.object_spec()@[i as int],
                None => i >= self.object_spec()@.len(),
            },
    {
        if i < self.get_object().len() {
            Some(&self.get_object()[i])
        } else {
            None
        }
    }

    /// The element at position `i`, which must be in range.
    pub fn index(&self, i: usize) -> (r: &T)
        requires
            i < self.object_spec()@.len(),
        ensures
            *r == self.object_spec()@[i as int],
    {
        &self.get_object()[i]
    }

    /// Applies one vector mutation and notifies the followers of it.
    fn send_message(&mut self, m: VecModifyMessage<T>)
        requires
            old(self).object_spec().process_ok(m),
        ensures
            final(self).object_spec()@ == <Vec<T> as Listener>::process_model(
                old(self).object_spec()@,
                m,
            ),
            final(self).followers_spec().delivered_matching(
                old(self).followers_spec(),
                m,
                |a: VecModifyMessage<T>, b: VecModifyMessage<T>| vec_message_agrees(a, b),
            ),
    {
        let dup = |x: &VecModifyMessage<T>| -> (r: VecModifyMessage<T>)
            ensures
                vec_message_agrees(*x, r),
            { duplicate_vec_message(x) };
        self.process_and_send_cloned(
            m,
            &dup,
            Ghost(|a: VecModifyMessage<T>, b: VecModifyMessage<T>| vec_message_agrees(a, b)),
        );
    }
}

} // verus!
