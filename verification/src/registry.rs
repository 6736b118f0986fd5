//! The subscription registry: which keys have a listener, and the channel
//! that feeds each of them.

use crate::channel::{forward, is_closed, open_channel};
use crate::message::RegistryError;
use futures_channel::mpsc::{UnboundedReceiver, UnboundedSender};
use serde_json::value::RawValue;
use vstd::prelude::*;

verus! {

/// What became of one pushed payload.
#[derive(Clone, Copy, Debug, PartialEq, Eq, Structural)]
pub enum Pushed {
    /// The payload was put on the channel of the key's listener.
    Delivered,
    /// No listener is installed for the key: the payload was discarded.
    Dropped,
    /// The key's listener had dropped its end of the channel: the payload was
    /// discarded and the listener removed.
    ConsumerGone,
}

/// For each key with an active listener, the payloads put on its channel
/// since it was installed, oldest first.
pub type Listeners = Map<Seq<u8>, Seq<Box<RawValue>>>;

/// What installing a listener for `key` returns: the registry that follows,
/// or the reason for which the key is refused.
pub open spec fn install_outcome(listeners: Listeners, key: Seq<u8>) -> Result<
    Listeners,
    RegistryError,
> {
    if listeners.contains_key(key) {
        Err(RegistryError::AlreadyActive)
    } else {
        Ok(listeners.insert(key, Seq::empty()))
    }
}

/// What removing the listener of `key` returns: the registry that follows, or
/// the reason for which the key is refused.
pub open spec fn uninstall_outcome(listeners: Listeners, key: Seq<u8>) -> Result<
    Listeners,
    RegistryError,
> {
    if listeners.contains_key(key) {
        Ok(listeners.remove(key))
    } else {
        Err(RegistryError::NotFound)
    }
}

/// The registry after an install or uninstall that returned `outcome`: a
/// refused operation changes nothing.
pub open spec fn registry_after(
    listeners: Listeners,
    outcome: Result<Listeners, RegistryError>,
) -> Listeners {
    match outcome {
        Ok(next) => next,
        Err(_) => listeners,
    }
}

/// What a push for `key` does, given whether the channel of the key's
/// listener, if there is one, `accepted` the payload.
pub open spec fn push_outcome(
    listeners: Listeners,
    key: Seq<u8>,
    payload: Box<RawValue>,
    accepted: bool,
) -> (Pushed, Listeners) {
    if !listeners.contains_key(key) {
        (Pushed::Dropped, listeners)
    } else if accepted {
        (Pushed::Delivered, listeners.insert(key, listeners[key].push(payload)))
    } else {
        (Pushed::ConsumerGone, listeners.remove(key))
    }
}

/// A key whose listener is installed cannot be installed again: the second
/// of two installs in a row is refused, whatever became of the first.
pub proof fn lemma_second_install_refused(listeners: Listeners, key: Seq<u8>)
    ensures
        install_outcome(registry_after(listeners, install_outcome(listeners, key)), key) == Err::<
            Listeners,
            RegistryError,
        >(RegistryError::AlreadyActive),
{
}

/// Removing a listener twice in a row is refused the second time, and so is
/// removing one that was never installed.
pub proof fn lemma_uninstall_absent_refused(listeners: Listeners, key: Seq<u8>)
    ensures
        !listeners.contains_key(key) ==> uninstall_outcome(listeners, key) == Err::<
            Listeners,
            RegistryError,
        >(RegistryError::NotFound),
        uninstall_outcome(registry_after(listeners, uninstall_outcome(listeners, key)), key)
            == Err::<Listeners, RegistryError>(RegistryError::NotFound),
{
}

/// A payload pushed for a key after its listener was removed is discarded,
/// and the registry stays as it is, whatever a channel would have said.
pub proof fn lemma_push_after_uninstall_dropped(
    listeners: Listeners,
    key: Seq<u8>,
    payload: Box<RawValue>,
    accepted: bool,
)
    ensures
        ({
            let after = registry_after(listeners, uninstall_outcome(listeners, key));
            push_outcome(after, key, payload, accepted) == (Pushed::Dropped, after)
        }),
{
}

/// A key may be used again once its listener was removed.
pub proof fn lemma_reinstall_after_uninstall(listeners: Listeners, key: Seq<u8>)
    ensures
        install_outcome(registry_after(listeners, uninstall_outcome(listeners, key)), key) is Ok,
{
}

/// Whether two subscription keys are the same.
pub fn same_key(left: &[u8; 32], right: &[u8; 32]) -> (same: bool)
    ensures
        same == (left@ == right@),
{
    let mut i: usize = 0;
    while i < 32
        invariant
            i <= 32,
            forall|j: int| 0 <= j < i ==> left@[j] == right@[j],
        decreases 32 - i,
    {
        if left[i] != right[i] {
            return false;
        }
        i += 1;
    }
    assert(left@ =~= right@);
    true
}

struct Listener {
    key: [u8; 32],
    sender: UnboundedSender<Box<RawValue>>,
}

/// The listeners of one connection.
pub struct SubscriptionRegistry {
    listeners: Vec<Listener>,
    forwarded: Ghost<Listeners>,
}

impl View for SubscriptionRegistry {
    type V = Listeners;

    /// The active keys, each with what was put on its channel.
    closed spec fn view(&self) -> Listeners {
        self.forwarded@
    }
}

impl SubscriptionRegistry {
    /// Each active key has one listener.
    pub closed spec fn wf(&self) -> bool {
        &&& forall|i: int|
            0 <= i < self.listeners@.len() ==> self.forwarded@.contains_key(
                (#[trigger] self.listeners@[i]).key@,
            )
        &&& forall|k: Seq<u8>|
            self.forwarded@.contains_key(k) ==> exists|i: int|
                0 <= i < self.listeners@.len() && (#[trigger] self.listeners@[i]).key@ == k
        &&& forall|i: int, j: int|
            0 <= i < j < self.listeners@.len() ==> (#[trigger] self.listeners@[i]).key@ != (
            #[trigger] self.listeners@[j]).key@
        &&& self.forwarded@.dom().finite()
        &&& self.forwarded@.dom().len() == self.listeners@.len()
    }

    /// A registry without listeners.
    pub fn new() -> (registry: SubscriptionRegistry)
        ensures
            registry.wf(),
            registry@ == Listeners::empty(),
    {
        SubscriptionRegistry { listeners: Vec::new(), forwarded: Ghost(Map::empty()) }
    }

    /// How many listeners are active.
    pub fn len(&self) -> (n: usize)
        requires
            self.wf(),
        ensures
            self@.dom().finite(),
            n == self@.len(),
    {
        self.listeners.len()
    }

    fn position(&self, key: &[u8; 32]) -> (found: Option<usize>)
        requires
            self.wf(),
        ensures
            found is Some <==> self@.contains_key(key@),
            found matches Some(i) ==> i < self.listeners@.len() && self.listeners@[i as int].key@
                == key@,
    {
        let mut i: usize = 0;
        while i < self.listeners.len()
            invariant
                self.wf(),
                i <= self.listeners@.len(),
                forall|j: int| 0 <= j < i ==> (#[trigger] self.listeners@[j]).key@ != key@,
            decreases self.listeners@.len() - i,
        {
            if same_key(&self.listeners[i].key, key) {
                return Some(i);
            }
            i += 1;
        }
        None
    }

    /// Whether a listener is active for `key`.
    pub fn is_active(&self, key: &[u8; 32]) -> (active: bool)
        requires
            self.wf(),
        ensures
            active == self@.contains_key(key@),
    {
        self.position(key).is_some()
    }

    fn discard(&mut self, i: usize)
        requires
            old(self).wf(),
            i < old(self).listeners@.len(),
        ensures
            final(self).wf(),
            final(self)@ == old(self)@.remove(old(self).listeners@[i as int].key@),
            final(self).listeners@.len() == old(self).listeners@.len() - 1,
    {
        self.forwarded = Ghost(self.forwarded@.remove(self.listeners@[i as int].key@));
        let _ = self.listeners.remove(i);
        proof {
            assert forall|k: Seq<u8>| self.forwarded@.contains_key(k) implies exists|j: int|
                0 <= j < self.listeners@.len() && (#[trigger] self.listeners@[j]).key@ == k by {
                let w = choose|w: int|
                    0 <= w < old(self).listeners@.len() && (#[trigger] old(self).listeners@[w]).key@
                        == k;
                if w < i {
                    assert(self.listeners@[w] == old(self).listeners@[w]);
                } else {
                    assert(self.listeners@[w - 1] == old(self).listeners@[w]);
                }
            }
        }
    }

    /// Creates a channel for `key` and returns its consuming end, unless a
    /// listener is active for the key already.
    pub fn install_listener(&mut self, key: [u8; 32]) -> (installed: Result<
        UnboundedReceiver<Box<RawValue>>,
        RegistryError,
    >)
        requires
            old(self).wf(),
        ensures
            final(self).wf(),
            final(self)@ == registry_after(old(self)@, install_outcome(old(self)@, key@)),
            installed is Ok <==> install_outcome(old(self)@, key@) is Ok,
            installed matches Err(reason) ==> install_outcome(old(self)@, key@) == Err::<
                Listeners,
                RegistryError,
            >(reason),
    {
        if self.position(&key).is_some() {
            return Err(RegistryError::AlreadyActive);
        }
        let (sender, receiver) = open_channel();
        self.forwarded = Ghost(self.forwarded@.insert(key@, Seq::empty()));
        self.listeners.push(Listener { key, sender });
        proof {
            let last = old(self).listeners@.len() as int;
            assert(self.listeners@[last].key@ == key@);
            assert forall|k: Seq<u8>| self.forwarded@.contains_key(k) implies exists|j: int|
                0 <= j < self.listeners@.len() && (#[trigger] self.listeners@[j]).key@ == k by {
                if k != key@ {
                    let w = choose|w: int|
                        0 <= w < old(self).listeners@.len() && (#[trigger] old(
                            self,
                        ).listeners@[w]).key@ == k;
                    assert(self.listeners@[w] == old(self).listeners@[w]);
                }
            }
            assert forall|i: int, j: int|
                0 <= i < j < self.listeners@.len() implies (#[trigger] self.listeners@[i]).key@ != (
            #[trigger] self.listeners@[j]).key@ by {
                assert(self.listeners@[i] == old(self).listeners@[i]);
                if j < last {
                    assert(self.listeners@[j] == old(self).listeners@[j]);
                }
            }
            assert forall|i: int| 0 <= i < self.listeners@.len() implies self.forwarded@.contains_key(
                (#[trigger] self.listeners@[i]).key@,
            ) by {
                if i < last {
                    assert(self.listeners@[i] == old(self).listeners@[i]);
                }
            }
        }
        Ok(receiver)
    }

    /// Removes the listener of `key` and drops the producing end of its
    /// channel, so that the consumer sees the end of the stream once it has
    /// drained what was put there.
    pub fn uninstall_listener(&mut self, key: [u8; 32]) -> (removed: Result<(), RegistryError>)
        requires
            old(self).wf(),
        ensures
            final(self).wf(),
            final(self)@ == registry_after(old(self)@, uninstall_outcome(old(self)@, key@)),
            removed is Ok <==> uninstall_outcome(old(self)@, key@) is Ok,
            removed matches Err(reason) ==> uninstall_outcome(old(self)@, key@) == Err::<
                Listeners,
                RegistryError,
            >(reason),
    {
        match self.position(&key) {
            None => Err(RegistryError::NotFound),
            Some(i) => {
                self.discard(i);
                Ok(())
            },
        }
    }

    fn conclude_push(
        &mut self,
        i: usize,
        payload: Ghost<Box<RawValue>>,
        sent: Result<(), Box<RawValue>>,
    ) -> (pushed: Pushed)
        requires
            old(self).wf(),
            i < old(self).listeners@.len(),
        ensures
            final(self).wf(),
            (pushed, final(self)@) == push_outcome(
                old(self)@,
                old(self).listeners@[i as int].key@,
                payload@,
                sent is Ok,
            ),
    {
        match sent {
            Ok(()) => {
                let ghost key = self.listeners@[i as int].key@;
                self.forwarded = Ghost(self.forwarded@.insert(key, self.forwarded@[key].push(payload@)));
                proof {
                    assert(old(self).forwarded@.contains_key(key));
                    assert(self.forwarded@.dom() =~= old(self).forwarded@.dom());
                    assert forall|k: Seq<u8>| self.forwarded@.contains_key(k) implies exists|j: int|
                        0 <= j < self.listeners@.len() && (#[trigger] self.listeners@[j]).key@
                            == k by {
                        assert(old(self).forwarded@.contains_key(k));
                        let w = choose|w: int|
                            0 <= w < old(self).listeners@.len() && (#[trigger] old(
                                self,
                            ).listeners@[w]).key@ == k;
                        assert(self.listeners@[w].key@ == k);
                    }
                }
                Pushed::Delivered
            },
            Err(_) => {
                self.discard(i);
                Pushed::ConsumerGone
            },
        }
    }

    /// Routes one pushed payload: onto the channel of the key's listener, or
    /// nowhere when the key has none. A listener whose consumer is gone is
    /// removed.
    pub fn dispatch_push(&mut self, key: &[u8; 32], payload: Box<RawValue>) -> (pushed: Pushed)
        requires
            old(self).wf(),
        ensures
            final(self).wf(),
            (pushed, final(self)@) == push_outcome(old(self)@, key@, payload, true) || (
            pushed,
            final(self)@,
            ) == push_outcome(old(self)@, key@, payload, false),
    {
        match self.position(key) {
            None => Pushed::Dropped,
            Some(i) => {
                let sent = forward(&self.listeners[i].sender, payload);
                self.conclude_push(i, Ghost(payload), sent)
            },
        }
    }

    /// One step of a sweep over the listeners, given whether the channel of
    /// the listener at `i` was found `closed`: a listener whose channel is
    /// closed is removed, and any other is kept. Returns the position at
    /// which the sweep goes on.
    fn sweep(&mut self, i: usize, closed: bool) -> (next: usize)
        requires
            old(self).wf(),
            i < old(self).listeners@.len(),
        ensures
            final(self).wf(),
            closed ==> {
                &&& next == i
                &&& final(self)@ == old(self)@.remove(old(self).listeners@[i as int].key@)
                &&& final(self).listeners@.len() == old(self).listeners@.len() - 1
            },
            !closed ==> next == i + 1 && *final(self) == *old(self),
    {
        if closed {
            self.discard(i);
            i
        } else {
            assert(i < self.listeners.len());
            i + 1
        }
    }

    /// Removes the listeners whose consumer has closed or dropped its end of
    /// the channel, and returns how many they were. Which listeners those are
    /// is for the channels to say: the others stay as they are.
    pub fn prune(&mut self) -> (removed: usize)
        requires
            old(self).wf(),
        ensures
            final(self).wf(),
            final(self)@.submap_of(old(self)@),
            removed == old(self)@.len() - final(self)@.len(),
    {
        let before: usize = self.listeners.len();
        let mut i: usize = 0;
        while i < self.listeners.len()
            invariant
                self.wf(),
                self@.submap_of(old(self)@),
                before == old(self)@.len(),
                i <= self.listeners@.len() <= before,
            decreases self.listeners@.len() - i,
        {
            let closed = is_closed(&self.listeners[i].sender);
            i = self.sweep(i, closed);
        }
        before - self.listeners.len()
    }

    /// Removes every listener, which closes every channel.
    pub fn close_all(&mut self)
        requires
            old(self).wf(),
        ensures
            final(self).wf(),
            final(self)@ == Listeners::empty(),
    {
        self.forwarded = Ghost(Map::empty());
        self.listeners = Vec::new();
    }
}

} // verus!
