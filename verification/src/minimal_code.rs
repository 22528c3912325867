use vstd::prelude::*;

verus! {

/// The smallest form of the event fan-out: unit messages, no cancellation.
/// Each subscription is a mailbox counting the unit messages it was sent.
pub struct MessageListeners {
    slots: Vec<Vec<()>>,
}

impl MessageListeners {
    /// How many subscriptions were registered.
    pub closed spec fn sub_count(self) -> nat {
        self.slots@.len()
    }

    /// The messages delivered to subscription `i` and not yet drained.
    pub closed spec fn inbox(self, i: int) -> Seq<()> {
        if 0 <= i < self.slots@.len() {
            self.slots@[i]@
        } else {
            Seq::empty()
        }
    }

    pub fn new() -> (r: Self)
        ensures
            r.sub_count() == 0,
    {
        MessageListeners { slots: Vec::new() }
    }

    /// Registers a new subscription and returns its stable identifier.
    pub fn listen(&mut self) -> (id: usize)
        ensures
            final(self).sub_count() == old(self).sub_count() + 1,
            id == old(self).sub_count(),
            final(self).inbox(id as int) == Seq::<()>::empty(),
            forall|i: int| i < id ==> final(self).inbox(i) == old(self).inbox(i),
    {
        let id = self.slots.len();
        self.slots.push(Vec::new());
        id
    }

    /// Delivers `message` to every subscription, in registration order.
    pub fn send(&mut self, message: ())
        ensures
            final(self).sub_count() == old(self).sub_count(),
            forall|i: int|
                0 <= i < old(self).sub_count() ==> final(self).inbox(i) == old(self).inbox(i)
                    + seq![message],
    {
        let n = self.slots.len();
        let mut i: usize = 0;
        while i < n
            invariant
                n == old(self).sub_count(),
                i <= n,
                self.sub_count() == old(self).sub_count(),
                forall|j: int|
                    #![trigger old(self).inbox(j)]
                    0 <= j < i ==> self.inbox(j) == old(self).inbox(j) + seq![message],
                forall|j: int|
                    #![trigger old(self).inbox(j)]
                    i <= j < n ==> self.inbox(j) == old(self).inbox(j),
            decreases n - i,
        {
            let mut taken: Vec<()> = Vec::new();
            core::mem::swap(&mut self.slots[i], &mut taken);
            taken.push(message);
            self.slots[i] = taken;
            proof {
                assert(old(self).inbox(i as int).push(message) =~= old(self).inbox(i as int)
                    + seq![message]);
            }
            i += 1;
        }
    }

    /// Empties subscription `id` and returns its pending messages.
    pub fn drain(&mut self, id: usize) -> (msgs: Vec<()>)
        requires
            id < old(self).sub_count(),
        ensures
            msgs@ == old(self).inbox(id as int),
            final(self).sub_count() == old(self).sub_count(),
            final(self).inbox(id as int) == Seq::<()>::empty(),
            forall|i: int| i != id ==> final(self).inbox(i) == old(self).inbox(i),
    {
        let mut taken: Vec<()> = Vec::new();
        core::mem::swap(&mut self.slots[id], &mut taken);
        taken
    }

    /// Creates a derived fan-out together with a subscription into `self`
    /// that feeds it; `map_step` moves pending unit messages across.
    pub fn map(&mut self) -> (r: (MessageListeners, usize))
        ensures
            final(self).sub_count() == old(self).sub_count() + 1,
            r.1 == old(self).sub_count(),
            final(self).inbox(r.1 as int) == Seq::<()>::empty(),
            forall|i: int| i < r.1 ==> final(self).inbox(i) == old(self).inbox(i),
            r.0.sub_count() == 0,
    {
        let id = self.listen();
        (MessageListeners::new(), id)
    }
}

/// Forwards the unit messages pending on `source`'s subscription `id` into
/// `target`. A unit message has one possible image, so no transformation is
/// taken.
pub fn map_step(source: &mut MessageListeners, id: usize, target: &mut MessageListeners)
    requires
        id < old(source).sub_count(),
    ensures
        final(source).sub_count() == old(source).sub_count(),
        final(source).inbox(id as int) == Seq::<()>::empty(),
        forall|i: int| i != id ==> final(source).inbox(i) == old(source).inbox(i),
        final(target).sub_count() == old(target).sub_count(),
        forall|i: int|
            0 <= i < old(target).sub_count() ==> final(target).inbox(i) == old(target).inbox(i)
                + old(source).inbox(id as int),
{
    let msgs = source.drain(id);
    let n = msgs.len();
    let mut i: usize = 0;
    while i < n
        invariant
            n == msgs@.len(),
            msgs@ == old(source).inbox(id as int),
            i <= n,
            target.sub_count() == old(target).sub_count(),
            forall|j: int|
                0 <= j < old(target).sub_count() ==> target.inbox(j) == old(target).inbox(j)
                    + msgs@.take(i as int),
        decreases n - i,
    {
        target.send(msgs[i]);
        proof {
            assert forall|j: int|
                0 <= j < old(target).sub_count() implies target.inbox(j) == old(target).inbox(j)
                + msgs@.take(i as int + 1) by {
                assert((old(target).inbox(j) + msgs@.take(i as int)) + seq![msgs@[i as int]]
                    =~= old(target).inbox(j) + msgs@.take(i as int + 1));
            }
        }
        i += 1;
    }
    proof {
        assert(msgs@.take(n as int) =~= msgs@);
    }
}

/// Anything that owns the minimal fan-out and exposes it.
pub trait MessageListenersInterface: Sized {
    /// The fan-out state, for use in contracts.
    spec fn listeners_spec(self) -> MessageListeners;

    /// Read access to the fan-out.
    fn listeners(&self) -> (r: &MessageListeners)
        ensures
            *r == self.listeners_spec(),
    ;
}

impl MessageListenersInterface for MessageListeners {
    open spec fn listeners_spec(self) -> MessageListeners {
        self
    }

    fn listeners(&self) -> (r: &MessageListeners) {
        self
    }
}

} // verus!
