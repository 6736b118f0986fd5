//! The state of one connection: the identifier counter, the table of
//! outstanding requests and the subscription registry, driven by the frames
//! that the physical transport reads.

use crate::future::{
    answers, batch_outcome, batch_status, dispatch_refusal, first_failure, pending_after_batch,
    pending_after_batch_cancel, pending_after_cancel, pending_after_poll, poll_outcome,
    with_waiting, without, BatchRpcFuture, RpcFuture,
};
use crate::id::{successor, views, Id, IdView};
use crate::message::{ids_of, Frame, RegistryError, Reply, Request, TransportError};
use crate::pending::{
    all_failed, failed, settled, slots_in_order, status_of, PendingTable, Slot, Status,
};
use crate::registry::{
    install_outcome, push_outcome, registry_after, uninstall_outcome, Listeners, Pushed,
    SubscriptionRegistry,
};
use crate::transport::{Connection, PubSubConnection};
use futures_channel::mpsc::UnboundedReceiver;
use serde_json::value::RawValue;
use vstd::prelude::*;

verus! {

/// What became of one inbound frame.
#[derive(Clone, Copy, Debug, PartialEq, Eq, Structural)]
pub enum Routed {
    /// A response: the request that waited for it has its reply.
    Settled,
    /// A response that no request waited for: discarded.
    Unmatched,
    /// A push.
    Push(Pushed),
}

/// The bookkeeping of one connection.
pub struct Correlator {
    local: bool,
    next: u64,
    open: bool,
    pending: PendingTable,
    listeners: SubscriptionRegistry,
}

impl Connection for Correlator {
    closed spec fn inv(&self) -> bool {
        self.pending.wf() && self.listeners.wf()
    }

    closed spec fn local(&self) -> bool {
        self.local
    }

    closed spec fn counter(&self) -> u64 {
        self.next
    }

    closed spec fn accepting(&self) -> bool {
        self.open
    }

    closed spec fn pending(&self) -> Map<IdView, Slot> {
        self.pending@
    }

    fn is_local(&self) -> (local: bool) {
        self.local
    }

    fn increment_id(&mut self) -> (issued: u64) {
        let issued: u64 = self.next;
        self.next = if issued == u64::MAX {
            0
        } else {
            issued + 1
        };
        issued
    }

    fn json_rpc_request(&mut self, req: &Request) -> (future: RpcFuture) {
        let id = req.id.clone();
        proof {
            let ids = seq![req.id@];
            assert(ids.no_duplicates());
            assert(ids[0] == req.id@);
        }
        if !self.open {
            return RpcFuture { id, refusal: Some(TransportError::Closed) };
        }
        if self.pending.register(req.id.clone()) {
            RpcFuture { id, refusal: None }
        } else {
            RpcFuture { id, refusal: Some(TransportError::DuplicateId) }
        }
    }

    fn batch_request(&mut self, reqs: &[Request]) -> (future: BatchRpcFuture) {
        let ghost members = ids_of(reqs@);
        let n = reqs.len();
        let mut ids: Vec<Id> = Vec::new();
        let mut i: usize = 0;
        while i < n
            invariant
                n == reqs@.len(),
                i <= n,
                members == ids_of(reqs@),
                ids@.len() == i,
                views(ids@) =~= members.take(i as int),
            decreases n - i,
        {
            let ghost collected = ids@;
            ids.push(reqs[i].id.clone());
            proof {
                assert(members[i as int] == reqs@[i as int].id@);
                assert forall|k: int| 0 <= k < i + 1 implies views(ids@)[k] == members.take(
                    i + 1,
                )[k] by {
                    if k < i {
                        assert(ids@[k] == collected[k]);
                        assert(views(collected)[k] == members.take(i as int)[k]);
                    }
                }
                assert(views(ids@) =~= members.take(i + 1));
            }
            i += 1;
        }
        assert(views(ids@) =~= members);
        if !self.open {
            return BatchRpcFuture::new(ids, Some(TransportError::Closed));
        }
        i = 0;
        while i < n
            invariant
                self.inv(),
                *self == *old(self),
                self.open,
                members == ids_of(reqs@),
                n == members.len(),
                i <= n,
                views(ids@) == members,
                forall|k: int| 0 <= k < i ==> !self.pending@.contains_key(#[trigger] members[k]),
                forall|k: int, l: int| 0 <= k < l < i ==> members[k] != members[l],
            decreases n - i,
        {
            match self.pending.status(&ids[i]) {
                Status::Absent => {},
                _ => {
                    assert(self.pending@.contains_key(members[i as int]));
                    return BatchRpcFuture::new(ids, Some(TransportError::DuplicateId));
                },
            }
            let mut j: usize = 0;
            while j < i
                invariant
                    self.inv(),
                    *self == *old(self),
                    self.open,
                    members == ids_of(reqs@),
                    i < n,
                    n == members.len(),
                    j <= i,
                    views(ids@) == members,
                    forall|k: int| 0 <= k < j ==> members[k] != members[i as int],
                decreases i - j,
            {
                if ids[j].matches(&ids[i]) {
                    assert(members[j as int] == members[i as int]);
                    assert(!members.no_duplicates());
                    return BatchRpcFuture::new(ids, Some(TransportError::DuplicateId));
                }
                j += 1;
            }
            i += 1;
        }
        assert(members.no_duplicates());
        i = 0;
        while i < n
            invariant
                self.inv(),
                self.open == old(self).open,
                self.local == old(self).local,
                self.next == old(self).next,
                self.listeners == old(self).listeners,
                members == ids_of(reqs@),
                n == members.len(),
                i <= n,
                views(ids@) == members,
                members.no_duplicates(),
                forall|k: int| 0 <= k < n ==> !old(self).pending@.contains_key(#[trigger] members[k]),
                self.pending@ == with_waiting(old(self).pending@, members.take(i as int)),
            decreases n - i,
        {
            let ghost before = self.pending@;
            let fresh = self.pending.register(ids[i].clone());
            proof {
                let id = members[i as int];
                assert(!members.take(i as int).contains(id));
                assert(fresh);
                let shorter = members.take(i as int);
                let longer = members.take(i + 1);
                assert(longer =~= shorter.push(id));
                assert forall|k: IdView| longer.contains(k) <==> (shorter.contains(k) || k
                    == id) by {
                    if longer.contains(k) {
                        let at = choose|at: int| 0 <= at < longer.len() && longer[at] == k;
                        if at < i {
                            assert(shorter[at] == k);
                        }
                    }
                    if shorter.contains(k) {
                        let at = choose|at: int| 0 <= at < shorter.len() && shorter[at] == k;
                        assert(longer[at] == k);
                    }
                    assert(longer[i as int] == id);
                }
                assert(self.pending@ =~= with_waiting(old(self).pending@, longer));
            }
            i += 1;
        }
        assert(members.take(n as int) =~= members);
        BatchRpcFuture::new(ids, None)
    }
}

impl PubSubConnection for Correlator {
    closed spec fn listeners(&self) -> Listeners {
        self.listeners@
    }

    fn uninstall_listener(&mut self, id: [u8; 32]) -> (removed: Result<(), RegistryError>) {
        self.listeners.uninstall_listener(id)
    }

    fn install_listener(&mut self, id: [u8; 32]) -> (installed: Result<
        UnboundedReceiver<Box<RawValue>>,
        RegistryError,
    >) {
        self.listeners.install_listener(id)
    }
}

/// An element is among the first `i + 1` of a sequence when it is among the
/// first `i` or is the one at `i`.
proof fn lemma_take_contains(ids: Seq<IdView>, i: int, id: IdView)
    requires
        0 <= i < ids.len(),
    ensures
        ids.take(i + 1).contains(id) <==> (ids.take(i).contains(id) || id == ids[i]),
{
    let shorter = ids.take(i);
    let longer = ids.take(i + 1);
    if longer.contains(id) {
        let at = choose|at: int| 0 <= at < longer.len() && longer[at] == id;
        if at < i {
            assert(shorter[at] == id);
        }
    }
    if shorter.contains(id) {
        let at = choose|at: int| 0 <= at < shorter.len() && shorter[at] == id;
        assert(longer[at] == id);
    }
    assert(longer[i] == ids[i]);
}

impl Correlator {
    /// The bookkeeping of a fresh connection: nothing is outstanding, no
    /// listener is installed, and the counter stands at `first_id`.
    pub fn new(local: bool, first_id: u64) -> (connection: Correlator)
        ensures
            connection.inv(),
            connection.local() == local,
            connection.counter() == first_id,
            connection.accepting(),
            connection.pending() == Map::<IdView, Slot>::empty(),
            connection.listeners() == Listeners::empty(),
    {
        Correlator {
            local,
            next: first_id,
            open: true,
            pending: PendingTable::new(),
            listeners: SubscriptionRegistry::new(),
        }
    }

    /// Whether the connection still takes requests.
    pub fn is_open(&self) -> (open: bool)
        ensures
            open == self.accepting(),
    {
        self.open
    }

    /// How many requests are outstanding.
    pub fn outstanding(&self) -> (n: usize)
        requires
            self.inv(),
        ensures
            n == self.pending().len(),
    {
        self.pending.len()
    }

    /// What the connection keeps for `id`.
    pub fn status(&self, id: &Id) -> (status: Status)
        requires
            self.inv(),
        ensures
            status == status_of(self.pending(), id@),
    {
        self.pending.status(id)
    }

    /// How many listeners are installed.
    pub fn listening(&self) -> (n: usize)
        requires
            self.inv(),
        ensures
            n == self.listeners().len(),
    {
        self.listeners.len()
    }

    /// Whether a listener is installed for `key`.
    pub fn is_listening(&self, key: &[u8; 32]) -> (active: bool)
        requires
            self.inv(),
        ensures
            active == self.listeners().contains_key(key@),
    {
        self.listeners.is_active(key)
    }

    /// Removes the listeners whose consumer is gone, and returns how many
    /// they were.
    pub fn prune(&mut self) -> (removed: usize)
        requires
            old(self).inv(),
        ensures
            final(self).inv(),
            final(self).counter() == old(self).counter(),
            final(self).local() == old(self).local(),
            final(self).accepting() == old(self).accepting(),
            final(self).pending() == old(self).pending(),
            final(self).listeners().submap_of(old(self).listeners()),
            removed == old(self).listeners().len() - final(self).listeners().len(),
    {
        self.listeners.prune()
    }

    /// Routes one inbound frame. A response settles the request that waits
    /// under its identifier, and is discarded when none does. A push goes to
    /// the listener installed under its key, and is discarded when there is
    /// none.
    pub fn handle_frame(&mut self, frame: Frame) -> (routed: Routed)
        requires
            old(self).inv(),
        ensures
            final(self).inv(),
            final(self).counter() == old(self).counter(),
            final(self).local() == old(self).local(),
            final(self).accepting() == old(self).accepting(),
            match frame {
                Frame::Response(response) => {
                    &&& final(self).pending() == settled(
                        old(self).pending(),
                        response.id@,
                        response.reply,
                    )
                    &&& final(self).listeners() == old(self).listeners()
                    &&& routed == (if status_of(old(self).pending(), response.id@)
                        == Status::Waiting {
                        Routed::Settled
                    } else {
                        Routed::Unmatched
                    })
                },
                Frame::Notification(notification) => {
                    &&& final(self).pending() == old(self).pending()
                    &&& routed matches Routed::Push(pushed)
                    &&& (pushed, final(self).listeners()) == push_outcome(
                        old(self).listeners(),
                        notification.key@,
                        notification.payload,
                        true,
                    ) || (pushed, final(self).listeners()) == push_outcome(
                        old(self).listeners(),
                        notification.key@,
                        notification.payload,
                        false,
                    )
                },
            },
    {
        match frame {
            Frame::Response(response) => {
                if self.pending.settle(&response.id, response.reply) {
                    Routed::Settled
                } else {
                    Routed::Unmatched
                }
            },
            Frame::Notification(notification) => {
                Routed::Push(self.listeners.dispatch_push(&notification.key, notification.payload))
            },
        }
    }

    /// Asks for the outcome of one request. Once the outcome is there it is
    /// handed over, and the slot is released.
    pub fn poll(&mut self, future: &RpcFuture) -> (polled: Option<Result<Reply, TransportError>>)
        requires
            old(self).inv(),
        ensures
            final(self).inv(),
            final(self).counter() == old(self).counter(),
            final(self).local() == old(self).local(),
            final(self).accepting() == old(self).accepting(),
            final(self).listeners() == old(self).listeners(),
            polled == poll_outcome(old(self).pending(), *future),
            final(self).pending() == pending_after_poll(old(self).pending(), *future),
    {
        if let Some(error) = future.refusal {
            return Some(Err(error));
        }
        match self.pending.status(&future.id) {
            Status::Absent => Some(Err(TransportError::NotOutstanding)),
            Status::Waiting => None,
            Status::Settled => match self.pending.remove(&future.id) {
                Some(Slot::Answered(reply)) => Some(Ok(reply)),
                Some(Slot::Failed(error)) => Some(Err(error)),
                _ => Some(Err(TransportError::NotOutstanding)),
            },
        }
    }

    /// Gives one request up: its slot is released, whether or not the
    /// response has arrived. A response that arrives later is discarded.
    pub fn cancel(&mut self, future: RpcFuture)
        requires
            old(self).inv(),
        ensures
            final(self).inv(),
            final(self).counter() == old(self).counter(),
            final(self).local() == old(self).local(),
            final(self).accepting() == old(self).accepting(),
            final(self).listeners() == old(self).listeners(),
            final(self).pending() == pending_after_cancel(old(self).pending(), future),
    {
        if future.refusal.is_none() {
            let _ = self.pending.remove(&future.id);
        }
    }

    /// Records that one request was lost on the way, with `error`. This
    /// settles the request if it still waits.
    pub fn fail(&mut self, future: &RpcFuture, error: TransportError) -> (accepted: bool)
        requires
            old(self).inv(),
        ensures
            final(self).inv(),
            final(self).counter() == old(self).counter(),
            final(self).local() == old(self).local(),
            final(self).accepting() == old(self).accepting(),
            final(self).listeners() == old(self).listeners(),
            accepted == (future.refusal is None && status_of(old(self).pending(), future.id@)
                == Status::Waiting),
            final(self).pending() == (if future.refusal is None {
                failed(old(self).pending(), future.id@, error)
            } else {
                old(self).pending()
            }),
    {
        if future.refusal.is_none() {
            self.pending.fail(&future.id, error)
        } else {
            false
        }
    }

    /// Asks for the outcome of a batch. The batch resolves as one unit, once
    /// every member has its outcome: to the replies in the order of the
    /// envelopes, whatever the order in which the responses arrived, or, if a
    /// member was lost, to the transport error of the first such member.
    pub fn poll_batch(&mut self, future: &BatchRpcFuture) -> (polled: Option<
        Result<Vec<Reply>, TransportError>,
    >)
        requires
            old(self).inv(),
        ensures
            final(self).inv(),
            final(self).counter() == old(self).counter(),
            final(self).local() == old(self).local(),
            final(self).accepting() == old(self).accepting(),
            final(self).listeners() == old(self).listeners(),
            final(self).pending() == pending_after_batch(old(self).pending(), *future),
            match batch_outcome(old(self).pending(), *future) {
                None => polled is None,
                Some(Err(error)) => polled == Some(Err::<Vec<Reply>, TransportError>(error)),
                Some(Ok(replies)) => polled matches Some(Ok(collected)) && collected@ == replies,
            },
    {
        proof {
            use_type_invariant(future);
            future.lemma_members_differ();
        }
        if let Some(error) = future.refused() {
            return Some(Err(error));
        }
        let ghost members = future.members();
        let ghost table = self.pending@;
        let ghost slots = slots_in_order(table, members);
        let n = future.len();
        let mut waiting = false;
        let mut i: usize = 0;
        while i < n
            invariant
                self.inv(),
                *self == *old(self),
                table == self.pending@,
                future.refusal() is None,
                members == future.members(),
                n == members.len(),
                i <= n,
                forall|k: int| 0 <= k < i ==> table.contains_key(#[trigger] members[k]),
                waiting <==> exists|k: int| 0 <= k < i && table[#[trigger] members[k]] is Waiting,
            decreases n - i,
        {
            match self.pending.status(future.member(i)) {
                Status::Absent => {
                    assert(!table.contains_key(members[i as int]));
                    return Some(Err(TransportError::NotOutstanding));
                },
                Status::Waiting => {
                    assert(table[members[i as int]] is Waiting);
                    waiting = true;
                },
                Status::Settled => {},
            }
            i += 1;
        }
        if waiting {
            return None;
        }
        assert(batch_status(table, members) == Status::Settled);
        let mut replies: Vec<Reply> = Vec::new();
        let mut failure: Option<TransportError> = None;
        i = 0;
        while i < n
            invariant
                self.inv(),
                self.open == old(self).open,
                self.local == old(self).local,
                self.next == old(self).next,
                self.listeners == old(self).listeners,
                members == future.members(),
                members.no_duplicates(),
                slots == slots_in_order(table, members),
                n == members.len(),
                i <= n,
                forall|k: int|
                    0 <= k < n ==> table.contains_key(#[trigger] members[k]) && !(
                    table[members[k]] is Waiting),
                self.pending@ == without(table, members.take(i as int)),
                failure == first_failure(slots.take(i as int)),
                failure is None ==> replies@ == answers(slots.take(i as int)),
            decreases n - i,
        {
            let ghost id = members[i as int];
            proof {
                assert(!members.take(i as int).contains(id)) by {
                    if members.take(i as int).contains(id) {
                        let at = choose|at: int|
                            0 <= at < members.take(i as int).len() && members.take(i as int)[at]
                                == id;
                        assert(members[at] == members[i as int]);
                    }
                }
                assert(self.pending@.contains_key(id));
                assert(slots.take(i + 1).drop_last() =~= slots.take(i as int));
                assert(slots.take(i + 1).last() == table[id]);
            }
            let slot = self.pending.remove(future.member(i));
            proof {
                assert forall|k: IdView|
                    members.take(i + 1).contains(k) <==> (members.take(i as int).contains(k) || k
                        == id) by {
                    lemma_take_contains(members, i as int, k);
                }
                assert(self.pending@ =~= without(table, members.take(i + 1)));
            }
            match slot {
                Some(Slot::Answered(reply)) => {
                    if failure.is_none() {
                        replies.push(reply);
                        assert(replies@ =~= answers(slots.take(i + 1)));
                    }
                },
                Some(Slot::Failed(error)) => {
                    if failure.is_none() {
                        failure = Some(error);
                    }
                },
                _ => {},
            }
            i += 1;
        }
        assert(members.take(n as int) =~= members);
        assert(slots.take(n as int) =~= slots);
        match failure {
            Some(error) => Some(Err(error)),
            None => Some(Ok(replies)),
        }
    }

    /// Gives a batch up: the slots of all its members are released.
    pub fn cancel_batch(&mut self, future: BatchRpcFuture)
        requires
            old(self).inv(),
        ensures
            final(self).inv(),
            final(self).counter() == old(self).counter(),
            final(self).local() == old(self).local(),
            final(self).accepting() == old(self).accepting(),
            final(self).listeners() == old(self).listeners(),
            final(self).pending() == pending_after_batch_cancel(old(self).pending(), future),
    {
        if future.refused().is_some() {
            return ;
        }
        let ghost members = future.members();
        let ghost table = self.pending@;
        let n = future.len();
        let mut i: usize = 0;
        assert(self.pending@ =~= without(table, members.take(0)));
        while i < n
            invariant
                self.inv(),
                self.open == old(self).open,
                self.local == old(self).local,
                self.next == old(self).next,
                self.listeners == old(self).listeners,
                members == future.members(),
                n == members.len(),
                i <= n,
                self.pending@ == without(table, members.take(i as int)),
            decreases n - i,
        {
            let ghost id = members[i as int];
            let _ = self.pending.remove(future.member(i));
            proof {
                assert forall|k: IdView|
                    members.take(i + 1).contains(k) <==> (members.take(i as int).contains(k) || k
                        == id) by {
                    lemma_take_contains(members, i as int, k);
                }
                assert(self.pending@ =~= without(table, members.take(i + 1)));
            }
            i += 1;
        }
        assert(members.take(n as int) =~= members);
    }

    /// Records that the connection failed for good: every request that still
    /// waits is lost with `error`, every listener's stream ends, and no
    /// further request is taken. Outcomes that had arrived stay for their
    /// callers to collect.
    pub fn shutdown(&mut self, error: TransportError)
        requires
            old(self).inv(),
        ensures
            final(self).inv(),
            final(self).counter() == old(self).counter(),
            final(self).local() == old(self).local(),
            !final(self).accepting(),
            final(self).pending() == all_failed(old(self).pending(), error),
            final(self).listeners() == Listeners::empty(),
    {
        self.pending.fail_all(error);
        self.listeners.close_all();
        self.open = false;
    }
}

} // verus!
