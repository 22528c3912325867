use vstd::prelude::*;

use crate::message_listeners::MessageListeners;

verus! {

/// An object that can replay modify messages against itself.
///
/// `Model` is the object's mathematical state; `process` advances it by one
/// message, exactly as `process_model` says.
pub trait Listener: Sized {
    /// The shape of the modify messages this object replays.
    type ModifyMessage;

    /// The mathematical state of the object.
    type Model;

    /// The object's current mathematical state.
    spec fn model(self) -> Self::Model;

    /// The object's internal invariant.
    spec fn obj_wf(self) -> bool;

    /// Whether the object can process this message (an index in range, for
    /// instance).
    spec fn process_ok(self, m: Self::ModifyMessage) -> bool;

    /// The mathematical state after one message.
    spec fn process_model(s: Self::Model, m: Self::ModifyMessage) -> Self::Model;

    /// Applies one modify message to the object.
    fn process(&mut self, modify_message: Self::ModifyMessage)
        requires
            old(self).obj_wf(),
            old(self).process_ok(modify_message),
        ensures
            final(self).obj_wf(),
            final(self).model() == Self::process_model(old(self).model(), modify_message),
    ;
}

/// An object paired with a fan-out of its modify messages: every mutation is
/// applied to the object and then delivered to every follower, so a follower
/// can mirror the object by replaying what it receives.
#[verifier::reject_recursive_types(M)]
pub struct Proxy<O: Listener<ModifyMessage = M>, M> {
    object: O,
    followers: MessageListeners<M>,
}

impl<M, O: Listener<ModifyMessage = M>> Proxy<O, M> {
    /// The proxied object, for use in contracts.
    pub closed spec fn object_spec(self) -> O {
        self.object
    }

    /// The follower fan-out, for use in contracts.
    pub closed spec fn followers_spec(self) -> MessageListeners<M> {
        self.followers
    }

    /// As `process_and_send`, for message shapes that cannot be plainly
    /// copied: `dup` reproduces the message for each follower, exact up to
    /// `agrees`, which must be reflexive and carry over a chain of
    /// reproductions.
    pub fn process_and_send_cloned<F: Fn(&M) -> M>(
        &mut self,
        modify_message: M,
        dup: &F,
        Ghost(agrees): Ghost<spec_fn(M, M) -> bool>,
    )
        requires
            old(self).object_spec().obj_wf(),
            old(self).object_spec().process_ok(modify_message),
            forall|m: M| call_requires(*dup, (&m,)),
            forall|m: M, r: M| call_ensures(*dup, (&m,), r) ==> agrees(m, r),
            forall|a: M, b: M, c: M| #![trigger agrees(a, b), agrees(b, c)] agrees(a, b) && agrees(b, c) ==> agrees(a, c),
            forall|m: M| #[trigger] agrees(m, m),
        ensures
            final(self).object_spec().obj_wf(),
            final(self).object_spec().model() == O::process_model(
                old(self).object_spec().model(),
                modify_message,
            ),
            final(self).followers_spec().delivered_matching(
                old(self).followers_spec(),
                modify_message,
                agrees,
            ),
    {
        let for_send = dup(&modify_message);
        self.object.process(modify_message);
        self.followers.send_with(for_send, dup, Ghost(agrees));
    }

    /// Wraps an object, with no followers yet.
    pub fn from(object: O) -> (r: Self)
        ensures
            r.object_spec() == object,
            r.followers_spec().sub_count() == 0,
    {
        Proxy { object, followers: MessageListeners::new() }
    }

    /// Registers a follower; its mirror starts from the object state of this
    /// moment.
    pub fn add_follower(&mut self) -> (id: usize)
        ensures
            final(self).object_spec() == old(self).object_spec(),
            final(self).followers_spec().subscribed(old(self).followers_spec()),
            id == old(self).followers_spec().sub_count(),
    {
        self.followers.listen()
    }

    /// Empties follower `id`'s pending messages, in delivery order.
    pub fn drain_follower(&mut self, id: usize) -> (msgs: Vec<M>)
        requires
            id < old(self).followers_spec().sub_count(),
        ensures
            final(self).object_spec() == old(self).object_spec(),
            msgs@ == old(self).followers_spec().inbox(id as int),
            final(self).followers_spec().drained(old(self).followers_spec(), id as int),
    {
        self.followers.drain(id)
    }

    /// Read access to the proxied object.
    pub fn get_object(&self) -> (r: &O)
        ensures
            *r == self.object_spec(),
    {
        &self.object
    }
}

impl<M: Copy, O: Listener<ModifyMessage = M>> Proxy<O, M> {
    /// Applies the message to the object, then delivers a copy to every
    /// follower: the mutation always precedes the notification.
    pub fn process_and_send(&mut self, modify_message: M)
        requires
            old(self).object_spec().obj_wf(),
            old(self).object_spec().process_ok(modify_message),
        ensures
            final(self).object_spec().obj_wf(),
            final(self).object_spec().model() == O::process_model(
                old(self).object_spec().model(),
                modify_message,
            ),
            final(self).followers_spec().delivered(
                old(self).followers_spec(),
                seq![modify_message],
            ),
    {
        self.object.process(modify_message);
        self.followers.send(modify_message);
    }
}

} // verus!
