use vstd::prelude::*;

use crate::message_listeners::MessageListeners;

verus! {

/// A presence-transition event for one element: the element became present
/// (`InsertOne`) or became absent (`RemoveOne`). Every relation and derived
/// view notifies through this shape; interior multiplicity changes of an
/// element never produce a message.
#[derive(Clone, Copy, Debug, PartialEq, Eq)]
pub enum MultiSetModifyMessage<T> {
    InsertOne(T),
    RemoveOne(T),
}

impl<T> MultiSetModifyMessage<T> {
    /// The element the transition is about.
    pub open spec fn element(self) -> T {
        match self {
            MultiSetModifyMessage::InsertOne(item) => item,
            MultiSetModifyMessage::RemoveOne(item) => item,
        }
    }

    /// The same transition reported for a transformed element.
    pub open spec fn with_element<T2>(self, item: T2) -> MultiSetModifyMessage<T2> {
        match self {
            MultiSetModifyMessage::InsertOne(_) => MultiSetModifyMessage::InsertOne(item),
            MultiSetModifyMessage::RemoveOne(_) => MultiSetModifyMessage::RemoveOne(item),
        }
    }
}

/// A fan-out of presence-transition events over elements of type `T`.
pub type MultiSetMessageListeners<T> = MessageListeners<MultiSetModifyMessage<T>>;

impl<T: Copy> MultiSetMessageListeners<T> {
    /// Creates a derived fan-out whose events carry transformed elements,
    /// together with a subscription into `self` that feeds it;
    /// `map_items_step` moves pending events across.
    pub fn map_items<T2: Copy>(&mut self) -> (r: (MultiSetMessageListeners<T2>, usize))
        ensures
            final(self).subscribed(*old(self)),
            r.1 == old(self).sub_count(),
            r.0.sub_count() == 0,
    {
        let id = self.listen();
        (MessageListeners::new(), id)
    }
}

/// Forwards the presence-transition events pending on `source`'s subscription
/// `id` into `target`, transforming each element by `f` and keeping the
/// transition kind, in order.
pub fn map_items_step<T: Copy, T2: Copy, F: Fn(T) -> T2>(
    source: &mut MultiSetMessageListeners<T>,
    id: usize,
    target: &mut MultiSetMessageListeners<T2>,
    f: &F,
)
    requires
        id < old(source).sub_count(),
        forall|t: T| call_requires(*f, (t,)),
    ensures
        final(source).drained(*old(source), id as int),
        exists|items: Seq<T2>|
            {
                &&& items.len() == old(source).inbox(id as int).len()
                &&& forall|j: int|
                    0 <= j < items.len() ==> call_ensures(
                        *f,
                        (old(source).inbox(id as int)[j].element(),),
                        #[trigger] items[j],
                    )
                &&& final(target).delivered(
                    *old(target),
                    Seq::new(
                        items.len(),
                        |j: int| old(source).inbox(id as int)[j].with_element(items[j]),
                    ),
                )
            },
{
    let msgs = source.drain(id);
    let ghost mut items: Seq<T2> = Seq::empty();
    let ghost mut out: Seq<MultiSetModifyMessage<T2>> = Seq::empty();
    proof {
        MessageListeners::lemma_delivered_empty(*target);
    }
    let mut i: usize = 0;
    while i < msgs.len()
        invariant
            i <= msgs@.len(),
            msgs@ == old(source).inbox(id as int),
            forall|t: T| call_requires(*f, (t,)),
            items.len() == i,
            out.len() == i,
            forall|j: int|
                0 <= j < i ==> call_ensures(*f, (msgs@[j].element(),), #[trigger] items[j]),
            forall|j: int| 0 <= j < i ==> out[j] == msgs@[j].with_element(items[j]),
            target.delivered(*old(target), out),
        decreases msgs@.len() - i,
    {
        let m = msgs[i];
        let item = match m {
            MultiSetModifyMessage::InsertOne(it) => it,
            MultiSetModifyMessage::RemoveOne(it) => it,
        };
        let item2 = f(item);
        let m2 = match m {
            MultiSetModifyMessage::InsertOne(_) => MultiSetModifyMessage::InsertOne(item2),
            MultiSetModifyMessage::RemoveOne(_) => MultiSetModifyMessage::RemoveOne(item2),
        };
        let ghost mid = *target;
        target.send(m2);
        proof {
            MessageListeners::lemma_delivered_trans(*old(target), mid, *target, out, seq![m2]);
            out = out + seq![m2];
            items = items + seq![item2];
        }
        i += 1;
    }
    proof {
        assert(out =~= Seq::new(
            items.len(),
            |j: int| old(source).inbox(id as int)[j].with_element(items[j]),
        ));
    }
}

} // verus!
