use vstd::prelude::*;

verus! {

/// Ordered multi-subscriber event fan-out with cancelable subscriptions.
///
/// A subscription is a mailbox slot: `send` appends a copy of the message to
/// every active slot, in registration order, and a subscriber later empties
/// its slot with `drain`. Cancelling only marks a slot inert — slots are never
/// reused or compacted, so subscription identifiers stay stable forever and a
/// cancellation can never disturb another subscriber.
pub struct MessageListeners<M> {
    slots: Vec<Option<Vec<M>>>,
}

impl<M> MessageListeners<M> {
    /// How many subscriptions were ever registered, cancelled ones included.
    pub closed spec fn sub_count(self) -> nat {
        self.slots@.len()
    }

    /// Whether subscription `i` exists and is still active.
    pub closed spec fn is_active(self, i: int) -> bool {
        0 <= i < self.slots@.len() && self.slots@[i] is Some
    }

    /// The messages delivered to subscription `i` and not yet drained.
    pub closed spec fn inbox(self, i: int) -> Seq<M> {
        if 0 <= i < self.slots@.len() {
            match self.slots@[i] {
                Some(pending) => pending@,
                None => Seq::empty(),
            }
        } else {
            Seq::empty()
        }
    }

    /// A slot that is inert (or out of range) holds no pending messages.
    pub proof fn lemma_inactive_inbox_empty(self, i: int)
        requires
            !self.is_active(i),
        ensures
            self.inbox(i) == Seq::<M>::empty(),
    {
    }

    /// `self` is `prior` with one more subscription, active and empty.
    pub open spec fn subscribed(self, prior: Self) -> bool {
        &&& self.sub_count() == prior.sub_count() + 1
        &&& self.is_active(prior.sub_count() as int)
        &&& self.inbox(prior.sub_count() as int) == Seq::<M>::empty()
        &&& forall|i: int| i < prior.sub_count() ==> self.is_active(i) == prior.is_active(i)
        &&& forall|i: int| i < prior.sub_count() ==> self.inbox(i) == prior.inbox(i)
    }

    /// `self` is `prior` after the messages `ms` were broadcast, in order:
    /// every active inbox grew by exactly `ms`, and the subscription
    /// structure is untouched.
    pub open spec fn delivered(self, prior: Self, ms: Seq<M>) -> bool {
        &&& self.sub_count() == prior.sub_count()
        &&& forall|i: int| self.is_active(i) == prior.is_active(i)
        &&& forall|i: int| prior.is_active(i) ==> self.inbox(i) == prior.inbox(i) + ms
    }

    /// `self` is `prior` with subscription `id` emptied and all else equal.
    pub open spec fn drained(self, prior: Self, id: int) -> bool {
        &&& self.sub_count() == prior.sub_count()
        &&& forall|i: int| self.is_active(i) == prior.is_active(i)
        &&& self.inbox(id) == Seq::<M>::empty()
        &&& forall|i: int| i != id ==> self.inbox(i) == prior.inbox(i)
    }

    /// `self` is `prior` with subscription `id` marked inert, all else equal.
    pub open spec fn cancelled(self, prior: Self, id: int) -> bool {
        &&& self.sub_count() == prior.sub_count()
        &&& !self.is_active(id)
        &&& forall|i: int| i != id ==> self.is_active(i) == prior.is_active(i)
        &&& forall|i: int| i != id ==> self.inbox(i) == prior.inbox(i)
    }

    /// Broadcasting `m1` and then `m2` is one broadcast of `m1 + m2`.
    pub proof fn lemma_delivered_trans(a: Self, b: Self, c: Self, m1: Seq<M>, m2: Seq<M>)
        requires
            b.delivered(a, m1),
            c.delivered(b, m2),
        ensures
            c.delivered(a, m1 + m2),
    {
        assert forall|i: int| a.is_active(i) implies c.inbox(i) == a.inbox(i) + (m1 + m2) by {
            assert((a.inbox(i) + m1) + m2 =~= a.inbox(i) + (m1 + m2));
        }
    }

    /// Broadcasting nothing changes nothing.
    pub proof fn lemma_delivered_empty(a: Self)
        ensures
            a.delivered(a, Seq::empty()),
    {
        assert forall|i: int| a.is_active(i) implies a.inbox(i) == a.inbox(i) + Seq::<M>::empty() by {
            assert(a.inbox(i) + Seq::<M>::empty() =~= a.inbox(i));
        }
    }

    pub fn new() -> (r: Self)
        ensures
            r.sub_count() == 0,
    {
        MessageListeners { slots: Vec::new() }
    }

    /// Registers a new subscription and returns its stable identifier.
    pub fn listen(&mut self) -> (id: usize)
        ensures
            final(self).subscribed(*old(self)),
            id == old(self).sub_count(),
    {
        let id = self.slots.len();
        self.slots.push(Some(Vec::new()));
        id
    }

    /// Marks subscription `id` inert. Idempotent; never reindexes.
    pub fn cancel(&mut self, id: usize)
        requires
            id < old(self).sub_count(),
        ensures
            final(self).cancelled(*old(self), id as int),
    {
        self.slots[id] = None;
    }

    /// Empties subscription `id` and returns its pending messages in
    /// delivery order.
    pub fn drain(&mut self, id: usize) -> (msgs: Vec<M>)
        requires
            id < old(self).sub_count(),
        ensures
            msgs@ == old(self).inbox(id as int),
            final(self).drained(*old(self), id as int),
    {
        let mut taken: Option<Vec<M>> = None;
        core::mem::swap(&mut self.slots[id], &mut taken);
        match taken {
            Some(pending) => {
                self.slots[id] = Some(Vec::new());
                pending
            },
            None => Vec::new(),
        }
    }

    /// Whether subscription `id` is still active.
    pub fn active(&self, id: usize) -> (r: bool)
        ensures
            r == self.is_active(id as int),
    {
        id < self.slots.len() && self.slots[id].is_some()
    }
}

impl<M> MessageListeners<M> {
    /// `self` is `prior` after one broadcast of `message`, each active inbox
    /// receiving its own reproduction of it, exact up to `agrees`.
    pub open spec fn delivered_matching(
        self,
        prior: Self,
        message: M,
        agrees: spec_fn(M, M) -> bool,
    ) -> bool {
        &&& self.sub_count() == prior.sub_count()
        &&& forall|i: int| self.is_active(i) == prior.is_active(i)
        &&& forall|i: int|
            prior.is_active(i) ==> exists|m2: M|
                agrees(message, m2) && self.inbox(i) == prior.inbox(i).push(m2)
    }

    /// Delivers to every active subscription, in registration order, a
    /// reproduction of `message` made by `dup`, for message shapes that
    /// cannot be plainly copied. The reproduction must agree with its
    /// original, and agreement must carry over a chain of reproductions.
    pub fn send_with<F: Fn(&M) -> M>(
        &mut self,
        message: M,
        dup: &F,
        Ghost(agrees): Ghost<spec_fn(M, M) -> bool>,
    )
        requires
            forall|m: M| call_requires(*dup, (&m,)),
            forall|m: M, r: M| call_ensures(*dup, (&m,), r) ==> agrees(m, r),
            forall|a: M, b: M, c: M| #![trigger agrees(a, b), agrees(b, c)] agrees(a, b) && agrees(b, c) ==> agrees(a, c),
            forall|m: M| #[trigger] agrees(m, m),
        ensures
            final(self).delivered_matching(*old(self), message, agrees),
    {
        let n = self.slots.len();
        let mut i: usize = 0;
        while i < n
            invariant
                forall|m: M| call_requires(*dup, (&m,)),
                forall|m: M, r: M| call_ensures(*dup, (&m,), r) ==> agrees(m, r),
                forall|a: M, b: M, c: M| #![trigger agrees(a, b), agrees(b, c)] agrees(a, b) && agrees(b, c) ==> agrees(a, c),
                forall|m: M| #[trigger] agrees(m, m),
                n == old(self).sub_count(),
                i <= n,
                self.sub_count() == old(self).sub_count(),
                forall|j: int| self.is_active(j) == old(self).is_active(j),
                forall|j: int|
                    old(self).is_active(j) && j < i ==> exists|m2: M|
                        agrees(message, m2) && self.inbox(j) == old(self).inbox(j).push(m2),
                forall|j: int|
                    old(self).is_active(j) && j >= i ==> self.inbox(j) == old(self).inbox(j),
            decreases n - i,
        {
            let mut taken: Option<Vec<M>> = None;
            core::mem::swap(&mut self.slots[i], &mut taken);
            match taken {
                Some(mut pending) => {
                    let m2 = dup(&message);
                    pending.push(m2);
                    self.slots[i] = Some(pending);
                },
                None => {},
            }
            i += 1;
        }
    }
}

impl<M: Copy> MessageListeners<M> {
    /// Delivers a copy of `message` to every active subscription, in
    /// registration order.
    pub fn send(&mut self, message: M)
        ensures
            final(self).delivered(*old(self), seq![message]),
    {
        let n = self.slots.len();
        let mut i: usize = 0;
        while i < n
            invariant
                n == old(self).sub_count(),
                i <= n,
                self.sub_count() == old(self).sub_count(),
                forall|j: int| self.is_active(j) == old(self).is_active(j),
                forall|j: int|
                    old(self).is_active(j) && j < i ==> self.inbox(j) == old(self).inbox(j)
                        + seq![message],
                forall|j: int|
                    old(self).is_active(j) && j >= i ==> self.inbox(j) == old(self).inbox(j),
            decreases n - i,
        {
            let mut taken: Option<Vec<M>> = None;
            core::mem::swap(&mut self.slots[i], &mut taken);
            match taken {
                Some(mut pending) => {
                    pending.push(message);
                    self.slots[i] = Some(pending);
                },
                None => {},
            }
            i += 1;
        }
    }

    /// Delivers a copy of every message in `messages` to every active
    /// subscription, in order.
    pub fn send_all(&mut self, messages: Vec<M>)
        ensures
            final(self).delivered(*old(self), messages@),
    {
        proof {
            MessageListeners::lemma_delivered_empty(*old(self));
            assert(messages@.take(0) =~= Seq::<M>::empty());
        }
        let n = messages.len();
        let mut i: usize = 0;
        while i < n
            invariant
                n == messages@.len(),
                i <= n,
                self.delivered(*old(self), messages@.take(i as int)),
            decreases n - i,
        {
            let ghost mid = *self;
            self.send(messages[i]);
            proof {
                MessageListeners::lemma_delivered_trans(
                    *old(self),
                    mid,
                    *self,
                    messages@.take(i as int),
                    seq![messages@[i as int]],
                );
                assert(messages@.take(i as int) + seq![messages@[i as int]] =~= messages@.take(
                    i as int + 1,
                ));
            }
            i += 1;
        }
        proof {
            assert(messages@.take(n as int) =~= messages@);
        }
    }

    /// Creates a derived fan-out of a transformed message type together with
    /// a subscription into `self` that feeds it; `map_step` moves pending
    /// messages across.
    pub fn map<M2>(&mut self) -> (r: (MessageListeners<M2>, usize))
        ensures
            final(self).subscribed(*old(self)),
            r.1 == old(self).sub_count(),
            r.0.sub_count() == 0,
    {
        let id = self.listen();
        (MessageListeners::new(), id)
    }

    /// Creates a derived fan-out of the same message type together with a
    /// subscription into `self` that feeds it; `filter_step` moves the
    /// matching pending messages across.
    pub fn filter(&mut self) -> (r: (MessageListeners<M>, usize))
        ensures
            final(self).subscribed(*old(self)),
            r.1 == old(self).sub_count(),
            r.0.sub_count() == 0,
    {
        let id = self.listen();
        (MessageListeners::new(), id)
    }
}

/// Forwards the messages pending on `source`'s subscription `id` into
/// `target`, each transformed by `f`, preserving order.
pub fn map_step<M: Copy, M2: Copy, F: Fn(M) -> M2>(
    source: &mut MessageListeners<M>,
    id: usize,
    target: &mut MessageListeners<M2>,
    f: &F,
)
    requires
        id < old(source).sub_count(),
        forall|m: M| old(source).inbox(id as int).contains(m) ==> call_requires(*f, (m,)),
    ensures
        final(source).drained(*old(source), id as int),
        exists|out: Seq<M2>|
            {
                &&& out.len() == old(source).inbox(id as int).len()
                &&& forall|j: int|
                    0 <= j < out.len() ==> call_ensures(
                        *f,
                        (old(source).inbox(id as int)[j],),
                        #[trigger] out[j],
                    )
                &&& final(target).delivered(*old(target), out)
            },
{
    let msgs = source.drain(id);
    let ghost mut out: Seq<M2> = Seq::empty();
    proof {
        MessageListeners::lemma_delivered_empty(*target);
    }
    let mut i: usize = 0;
    while i < msgs.len()
        invariant
            i <= msgs@.len(),
            msgs@ == old(source).inbox(id as int),
            forall|m: M| msgs@.contains(m) ==> call_requires(*f, (m,)),
            out.len() == i,
            forall|j: int| 0 <= j < i ==> call_ensures(*f, (msgs@[j],), #[trigger] out[j]),
            target.delivered(*old(target), out),
        decreases msgs@.len() - i,
    {
        let m = msgs[i];
        assert(msgs@.contains(msgs@[i as int]));
        let m2 = f(m);
        let ghost mid = *target;
        target.send(m2);
        proof {
            MessageListeners::lemma_delivered_trans(*old(target), mid, *target, out, seq![m2]);
            out = out + seq![m2];
        }
        i += 1;
    }
}

/// The verdict of a message predicate closure on one message.
pub open spec fn message_accepted<M, F: Fn(&M) -> bool>(f: F, m: M) -> bool {
    call_ensures(f, (&m,), true)
}

/// The message predicate closure answers every message, and
/// deterministically: a single verdict is possible for each message.
pub open spec fn message_predicate_total<M, F: Fn(&M) -> bool>(f: F) -> bool {
    &&& forall|m: M| call_requires(f, (&m,))
    &&& forall|m: M| !(call_ensures(f, (&m,), true) && call_ensures(f, (&m,), false))
}

/// Forwards the messages pending on `source`'s subscription `id` into
/// `target`, keeping exactly those the predicate `f` accepts, preserving
/// order.
pub fn filter_step<M: Copy, F: Fn(&M) -> bool>(
    source: &mut MessageListeners<M>,
    id: usize,
    target: &mut MessageListeners<M>,
    f: &F,
)
    requires
        id < old(source).sub_count(),
        message_predicate_total::<M, F>(*f),
    ensures
        final(source).drained(*old(source), id as int),
        final(target).delivered(
            *old(target),
            old(source).inbox(id as int).filter(|m: M| message_accepted(*f, m)),
        ),
{
    let ghost p = |m: M| message_accepted(*f, m);
    let msgs = source.drain(id);
    proof {
        MessageListeners::lemma_delivered_empty(*target);
        reveal(Seq::filter);
        assert(msgs@.take(0) =~= Seq::<M>::empty());
        assert(msgs@.take(0).filter(p) =~= Seq::<M>::empty());
    }
    let mut i: usize = 0;
    while i < msgs.len()
        invariant
            i <= msgs@.len(),
            msgs@ == old(source).inbox(id as int),
            message_predicate_total::<M, F>(*f),
            p == (|m: M| message_accepted(*f, m)),
            target.delivered(*old(target), msgs@.take(i as int).filter(p)),
        decreases msgs@.len() - i,
    {
        let m = msgs[i];
        let keep = f(&m);
        proof {
            assert(keep == p(msgs@[i as int]));
            reveal(Seq::filter);
            assert(msgs@.take(i as int + 1) =~= msgs@.take(i as int).push(msgs@[i as int]));
            assert(msgs@.take(i as int).push(msgs@[i as int]).drop_last() =~= msgs@.take(i as int));
        }
        if keep {
            let ghost mid = *target;
            target.send(m);
            proof {
                MessageListeners::lemma_delivered_trans(
                    *old(target),
                    mid,
                    *target,
                    msgs@.take(i as int).filter(p),
                    seq![m],
                );
                assert(msgs@.take(i as int).filter(p) + seq![m] =~= msgs@.take(
                    i as int + 1,
                ).filter(p));
            }
        } else {
            proof {
                assert(msgs@.take(i as int).filter(p) =~= msgs@.take(i as int + 1).filter(p));
            }
        }
        i += 1;
    }
    proof {
        assert(msgs@.take(msgs@.len() as int) =~= msgs@);
        assert(p =~= (|m: M| message_accepted(*f, m)));
    }
}

/// Anything that owns a [`MessageListeners`] fan-out and exposes it.
pub trait MessageListenersInterface<M>: Sized {
    /// The fan-out state, for use in contracts.
    spec fn listeners_spec(self) -> MessageListeners<M>;

    /// Read access to the fan-out.
    fn listeners(&self) -> (r: &MessageListeners<M>)
        ensures
            *r == self.listeners_spec(),
    ;
}

impl<M> MessageListenersInterface<M> for MessageListeners<M> {
    open spec fn listeners_spec(self) -> MessageListeners<M> {
        self
    }

    fn listeners(&self) -> (r: &MessageListeners<M>) {
        self
    }
}

} // verus!
