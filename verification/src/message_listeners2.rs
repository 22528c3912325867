use vstd::prelude::*;

verus! {

/// A leaner event fan-out without cancellation: subscriptions, once
/// registered, stay active for the fan-out's whole life.
pub struct MessageListeners2<M> {
    slots: Vec<Vec<M>>,
}

impl<M> MessageListeners2<M> {
    /// How many subscriptions were registered.
    pub closed spec fn sub_count(self) -> nat {
        self.slots@.len()
    }

    /// The messages delivered to subscription `i` and not yet drained.
    pub closed spec fn inbox(self, i: int) -> Seq<M> {
        if 0 <= i < self.slots@.len() {
            self.slots@[i]@
        } else {
            Seq::empty()
        }
    }

    pub fn new() -> (r: Self)
        ensures
            r.sub_count() == 0,
    {
        MessageListeners2 { slots: Vec::new() }
    }

    /// Registers a new subscription and returns its stable identifier.
    pub fn listen(&mut self) -> (id: usize)
        ensures
            final(self).sub_count() == old(self).sub_count() + 1,
            id == old(self).sub_count(),
            final(self).inbox(id as int) == Seq::<M>::empty(),
            forall|i: int| i < id ==> final(self).inbox(i) == old(self).inbox(i),
    {
        let id = self.slots.len();
        self.slots.push(Vec::new());
        id
    }

    /// Empties subscription `id` and returns its pending messages in
    /// delivery order.
    pub fn drain(&mut self, id: usize) -> (msgs: Vec<M>)
        requires
            id < old(self).sub_count(),
        ensures
            msgs@ == old(self).inbox(id as int),
            final(self).sub_count() == old(self).sub_count(),
            final(self).inbox(id as int) == Seq::<M>::empty(),
            forall|i: int| i != id ==> final(self).inbox(i) == old(self).inbox(i),
    {
        let mut taken: Vec<M> = Vec::new();
        core::mem::swap(&mut self.slots[id], &mut taken);
        taken
    }
}

impl<M: Copy> MessageListeners2<M> {
    /// Delivers a copy of `message` to every subscription, in registration
    /// order.
    pub fn send(&mut self, message: M)
        ensures
            final(self).sub_count() == old(self).sub_count(),
            forall|i: int|
                0 <= i < old(self).sub_count() ==> final(self).inbox(i) == old(self).inbox(i)
                    + seq![message],
    {
        let n = self.slots.len();
        let mut i: usize = 0;
        while i < n
            invariant
                n == old(self).sub_count(),
                i <= n,
                self.sub_count() == old(self).sub_count(),
                forall|j: int|
                    #![trigger old(self).inbox(j)]
                    0 <= j < i ==> self.inbox(j) == old(self).inbox(j) + seq![message],
                forall|j: int|
                    #![trigger old(self).inbox(j)]
                    i <= j < n ==> self.inbox(j) == old(self).inbox(j),
            decreases n - i,
        {
            let mut taken: Vec<M> = Vec::new();
            core::mem::swap(&mut self.slots[i], &mut taken);
            taken.push(message);
            self.slots[i] = taken;
            proof {
                assert(old(self).inbox(i as int).push(message) =~= old(self).inbox(i as int)
                    + seq![message]);
            }
            i += 1;
        }
    }
}

impl<M: Copy> MessageListeners2<M> {
    /// Creates a derived fan-out of a transformed message type together with
    /// a subscription into `self` that feeds it; `map_step` moves pending
    /// messages across.
    pub fn map<M2>(&mut self) -> (r: (MessageListeners2<M2>, usize))
        ensures
            final(self).sub_count() == old(self).sub_count() + 1,
            r.1 == old(self).sub_count(),
            final(self).inbox(r.1 as int) == Seq::<M>::empty(),
            forall|i: int| i < r.1 ==> final(self).inbox(i) == old(self).inbox(i),
            r.0.sub_count() == 0,
    {
        let id = self.listen();
        (MessageListeners2::new(), id)
    }

    /// Creates a derived fan-out of the same message type together with a
    /// subscription into `self` that feeds it; `filter_step` moves the
    /// matching pending messages across.
    pub fn filter(&mut self) -> (r: (MessageListeners2<M>, usize))
        ensures
            final(self).sub_count() == old(self).sub_count() + 1,
            r.1 == old(self).sub_count(),
            final(self).inbox(r.1 as int) == Seq::<M>::empty(),
            forall|i: int| i < r.1 ==> final(self).inbox(i) == old(self).inbox(i),
            r.0.sub_count() == 0,
    {
        let id = self.listen();
        (MessageListeners2::new(), id)
    }
}

/// Forwards the messages pending on `source`'s subscription `id` into
/// `target`, each transformed by `f`, preserving order.
pub fn map_step<M: Copy, M2: Copy, F: Fn(M) -> M2>(
    source: &mut MessageListeners2<M>,
    id: usize,
    target: &mut MessageListeners2<M2>,
    f: &F,
)
    requires
        id < old(source).sub_count(),
        forall|m: M| call_requires(*f, (m,)),
    ensures
        final(source).sub_count() == old(source).sub_count(),
        final(source).inbox(id as int) == Seq::<M>::empty(),
        forall|i: int| i != id ==> final(source).inbox(i) == old(source).inbox(i),
        final(target).sub_count() == old(target).sub_count(),
        exists|out: Seq<M2>|
            {
                &&& out.len() == old(source).inbox(id as int).len()
                &&& forall|j: int|
                    0 <= j < out.len() ==> call_ensures(
                        *f,
                        (old(source).inbox(id as int)[j],),
                        #[trigger] out[j],
                    )
                &&& forall|i: int|
                    #![trigger old(target).inbox(i)]
                    0 <= i < old(target).sub_count() ==> final(target).inbox(i) == old(
                        target,
                    ).inbox(i) + out
            },
{
    let msgs = source.drain(id);
    let ghost mut out: Seq<M2> = Seq::empty();
    proof {
        assert forall|i: int|
            0 <= i < old(target).sub_count() implies target.inbox(i) == old(target).inbox(i)
            + out by {
            assert(old(target).inbox(i) + Seq::<M2>::empty() =~= old(target).inbox(i));
        }
    }
    let mut i: usize = 0;
    while i < msgs.len()
        invariant
            i <= msgs@.len(),
            msgs@ == old(source).inbox(id as int),
            forall|m: M| call_requires(*f, (m,)),
            out.len() == i,
            forall|j: int| 0 <= j < i ==> call_ensures(*f, (msgs@[j],), #[trigger] out[j]),
            target.sub_count() == old(target).sub_count(),
            forall|j: int|
                #![trigger old(target).inbox(j)]
                0 <= j < old(target).sub_count() ==> target.inbox(j) == old(target).inbox(j) + out,
        decreases msgs@.len() - i,
    {
        let m2 = f(msgs[i]);
        target.send(m2);
        proof {
            assert forall|j: int|
                0 <= j < old(target).sub_count() implies target.inbox(j) == old(target).inbox(j) + (
            out + seq![m2]) by {
                assert((old(target).inbox(j) + out) + seq![m2] =~= old(target).inbox(j) + (out
                    + seq![m2]));
            }
            out = out + seq![m2];
        }
        i += 1;
    }
}

/// Forwards the messages pending on `source`'s subscription `id` into
/// `target`, keeping exactly those the predicate `f` accepts, preserving
/// order.
pub fn filter_step<M: Copy, F: Fn(&M) -> bool>(
    source: &mut MessageListeners2<M>,
    id: usize,
    target: &mut MessageListeners2<M>,
    f: &F,
)
    requires
        id < old(source).sub_count(),
        crate::message_listeners::message_predicate_total::<M, F>(*f),
    ensures
        final(source).sub_count() == old(source).sub_count(),
        final(source).inbox(id as int) == Seq::<M>::empty(),
        forall|i: int| i != id ==> final(source).inbox(i) == old(source).inbox(i),
        final(target).sub_count() == old(target).sub_count(),
        forall|i: int|
            #![trigger old(target).inbox(i)]
            0 <= i < old(target).sub_count() ==> final(target).inbox(i) == old(target).inbox(i)
                + old(source).inbox(id as int).filter(
                |m: M| crate::message_listeners::message_accepted(*f, m),
            ),
{
    let ghost p = |m: M| crate::message_listeners::message_accepted(*f, m);
    let msgs = source.drain(id);
    proof {
        reveal(Seq::filter);
        assert(msgs@.take(0) =~= Seq::<M>::empty());
        assert(msgs@.take(0).filter(p) =~= Seq::<M>::empty());
        assert forall|i: int|
            0 <= i < old(target).sub_count() implies target.inbox(i) == old(target).inbox(i)
            + msgs@.take(0).filter(p) by {
            assert(old(target).inbox(i) + Seq::<M>::empty() =~= old(target).inbox(i));
        }
    }
    let mut i: usize = 0;
    while i < msgs.len()
        invariant
            i <= msgs@.len(),
            msgs@ == old(source).inbox(id as int),
            crate::message_listeners::message_predicate_total::<M, F>(*f),
            p == (|m: M| crate::message_listeners::message_accepted(*f, m)),
            target.sub_count() == old(target).sub_count(),
            forall|j: int|
                #![trigger old(target).inbox(j)]
                0 <= j < old(target).sub_count() ==> target.inbox(j) == old(target).inbox(j)
                    + msgs@.take(i as int).filter(p),
        decreases msgs@.len() - i,
    {
        let m = msgs[i];
        let keep = f(&m);
        proof {
            assert(keep == p(msgs@[i as int]));
            reveal(Seq::filter);
            assert(msgs@.take(i as int + 1) =~= msgs@.take(i as int).push(msgs@[i as int]));
            assert(msgs@.take(i as int).push(msgs@[i as int]).drop_last() =~= msgs@.take(i as int));
        }
        if keep {
            target.send(m);
            proof {
                assert forall|j: int|
                    0 <= j < old(target).sub_count() implies target.inbox(j) == old(target).inbox(j)
                    + msgs@.take(i as int + 1).filter(p) by {
                    assert((old(target).inbox(j) + msgs@.take(i as int).filter(p)) + seq![m]
                        =~= old(target).inbox(j) + (msgs@.take(i as int).filter(p) + seq![m]));
                    assert(msgs@.take(i as int).filter(p) + seq![m] =~= msgs@.take(
                        i as int + 1,
                    ).filter(p));
                }
            }
        } else {
            proof {
                assert(msgs@.take(i as int).filter(p) =~= msgs@.take(i as int + 1).filter(p));
            }
        }
        i += 1;
    }
    proof {
        assert(msgs@.take(msgs@.len() as int) =~= msgs@);
        assert(p =~= (|m: M| crate::message_listeners::message_accepted(*f, m)));
    }
}

/// Anything that owns a [`MessageListeners2`] fan-out and exposes it.
pub trait MessageListeners2Interface<M>: Sized {
    /// The fan-out state, for use in contracts.
    spec fn listeners_spec(self) -> MessageListeners2<M>;

    /// Read access to the fan-out.
    fn listeners(&self) -> (r: &MessageListeners2<M>)
        ensures
            *r == self.listeners_spec(),
    ;
}

impl<M> MessageListeners2Interface<M> for MessageListeners2<M> {
    open spec fn listeners_spec(self) -> MessageListeners2<M> {
        self
    }

    fn listeners(&self) -> (r: &MessageListeners2<M>) {
        self
    }
}

} // verus!
