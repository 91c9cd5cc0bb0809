//! The broadcast hub: the registry of the subscribers' channels. A frame is
//! offered to every channel in the order in which they were registered, and a
//! channel that no longer takes one leaves the registry in the same pass.
//!
//! The hub is a plain value. Whoever shares it among connections puts it
//! behind one lock and holds that lock for a whole `subscribe` or
//! `broadcast`.

use std::sync::mpsc::{Receiver, Sender};
use std::sync::Arc;
use vstd::prelude::*;

verus! {

/// The sending end of a channel of the standard library; nothing of its
/// inside is known here.
#[verifier::external_type_specification]
#[verifier::external_body]
#[verifier::reject_recursive_types(T)]
pub struct ExSender<T>(Sender<T>);

/// The receiving end of a channel of the standard library; nothing of its
/// inside is known here.
#[verifier::external_type_specification]
#[verifier::external_body]
#[verifier::reject_recursive_types(T)]
pub struct ExReceiver<T>(Receiver<T>);

/// `std::sync::mpsc::channel`: a new unbounded channel, as its two ends.
/// Nothing is claimed of them.
#[verifier::external_body]
fn open_channel() -> (ends: (Sender<Arc<Vec<u8>>>, Receiver<Arc<Vec<u8>>>)) {
    std::sync::mpsc::channel()
}

/// `Sender::send`, with one more handle on the shared frame: whether the
/// channel took it. The call does not block. It fails once the receiving end
/// is gone, which is for the other side to decide, so nothing is claimed of
/// the outcome.
#[verifier::external_body]
fn offer(listener: &Sender<Arc<Vec<u8>>>, frame: &Arc<Vec<u8>>) -> (taken: bool) {
    listener.send(Arc::clone(frame)).is_ok()
}

/// The entries that stay: those whose outcome in `taken`, at the same index,
/// is `true`, in their order.
pub open spec fn kept<T>(entries: Seq<T>, taken: Seq<bool>) -> Seq<T>
    recommends
        entries.len() == taken.len(),
    decreases entries.len(),
{
    if entries.len() == 0 {
        Seq::empty()
    } else if taken.len() > 0 && taken.last() {
        kept(entries.drop_last(), taken.drop_last()).push(entries.last())
    } else {
        kept(entries.drop_last(), taken.drop_last())
    }
}

/// No more entries stay than there were.
pub proof fn lemma_kept_is_no_longer<T>(entries: Seq<T>, taken: Seq<bool>)
    ensures
        kept(entries, taken).len() <= entries.len(),
    decreases entries.len(),
{
    if entries.len() > 0 {
        lemma_kept_is_no_longer(entries.drop_last(), taken.drop_last());
    }
}

/// Where every channel took the frame, the registry is as it was.
pub proof fn lemma_all_taken_keeps_all<T>(entries: Seq<T>, taken: Seq<bool>)
    requires
        entries.len() == taken.len(),
        forall|i: int| 0 <= i < taken.len() ==> taken[i],
    ensures
        kept(entries, taken) == entries,
    decreases entries.len(),
{
    if entries.len() > 0 {
        lemma_all_taken_keeps_all(entries.drop_last(), taken.drop_last());
        assert(entries.drop_last().push(entries.last()) == entries);
    }
}

/// An entry whose channel did not take the frame is gone after the pass, and
/// the pass leaves what it would have left had the entry never been there.
pub proof fn lemma_refused_entry_is_pruned<T>(entries: Seq<T>, taken: Seq<bool>, i: int)
    requires
        entries.len() == taken.len(),
        0 <= i < entries.len(),
        !taken[i],
    ensures
        kept(entries, taken) == kept(entries.remove(i), taken.remove(i)),
    decreases entries.len(),
{
    if i == entries.len() - 1 {
        assert(entries.remove(i) == entries.drop_last());
        assert(taken.remove(i) == taken.drop_last());
    } else {
        lemma_refused_entry_is_pruned(entries.drop_last(), taken.drop_last(), i);
        assert(entries.remove(i).drop_last() == entries.drop_last().remove(i));
        assert(taken.remove(i).drop_last() == taken.drop_last().remove(i));
        assert(entries.remove(i).last() == entries.last());
        assert(taken.remove(i).last() == taken.last());
    }
}

/// The registry of the subscribers' channels, in the order of registration.
pub struct Hub {
    listeners: Vec<Sender<Arc<Vec<u8>>>>,
}

impl Hub {
    /// The registered channels, first registered first.
    pub closed spec fn listeners(&self) -> Seq<Sender<Arc<Vec<u8>>>> {
        self.listeners@
    }

    /// A hub without subscribers.
    pub fn new() -> (hub: Hub)
        ensures
            hub.listeners().len() == 0,
    {
        Hub { listeners: Vec::new() }
    }

    /// How many channels are registered.
    pub fn len(&self) -> (count: usize)
        ensures
            count == self.listeners().len(),
    {
        self.listeners.len()
    }

    /// Registers a new channel behind all others and hands out its receiving
    /// end. This never fails.
    pub fn subscribe(&mut self) -> (receiver: Receiver<Arc<Vec<u8>>>)
        ensures
            final(self).listeners().len() == old(self).listeners().len() + 1,
            final(self).listeners().drop_last() == old(self).listeners(),
    {
        let (sender, receiver) = open_channel();
        self.listeners.push(sender);
        receiver
    }

    /// Offers the frame once to every registered channel, in the order of
    /// registration, and removes each channel that did not take it. Returns,
    /// for each channel that was registered, whether it took the frame.
    pub fn broadcast(&mut self, frame: &Arc<Vec<u8>>) -> (taken: Vec<bool>)
        ensures
            taken@.len() == old(self).listeners().len(),
            final(self).listeners() == kept(old(self).listeners(), taken@),
    {
        let mut taken: Vec<bool> = Vec::new();
        let mut i: usize = 0;
        let ghost before = self.listeners@;
        while i < self.listeners.len()
            invariant
                taken@.len() <= before.len(),
                i == kept(before.take(taken@.len() as int), taken@).len(),
                self.listeners@ == kept(before.take(taken@.len() as int), taken@) + before.skip(
                    taken@.len() as int,
                ),
            decreases before.len() - taken@.len(),
        {
            let ghost k = taken@.len() as int;
            let ghost earlier = taken@;
            assert(k < before.len());
            assert(self.listeners@[i as int] == before[k]);
            let ok = offer(&self.listeners[i], frame);
            taken.push(ok);
            proof {
                assert(before.take(k + 1).drop_last() == before.take(k));
                assert(before.take(k + 1).last() == before[k]);
                assert(taken@.drop_last() == earlier);
            }
            if ok {
                i += 1;
            } else {
                self.listeners.remove(i);
            }
        }
        assert(before.take(taken@.len() as int) == before);
        taken
    }
}

} // verus!
