//! The handles that a dispatch returns: one for a single request, one for a
//! batch. A handle holds no outcome; the connection does, until the handle is
//! polled or given up.

use crate::id::{views, Id, IdView};
use crate::message::{Reply, TransportError};
use crate::pending::{
    lemma_settled_all_keeps_keys, lemma_settled_all_slot, one_response_each, settled_all,
    slots_in_order, status_of, Slot, Status,
};
use vstd::prelude::*;

verus! {

/// Why a dispatch of the identifiers `ids`, taken together, is refused: the
/// connection is closed, or one of them is in use already, by an outstanding
/// request or by another of them.
pub open spec fn dispatch_refusal(accepting: bool, pending: Map<IdView, Slot>, ids: Seq<IdView>)
    -> Option<TransportError> {
    if !accepting {
        Some(TransportError::Closed)
    } else if !ids.no_duplicates() || exists|i: int|
        0 <= i < ids.len() && pending.contains_key(#[trigger] ids[i]) {
        Some(TransportError::DuplicateId)
    } else {
        None
    }
}

/// The table with a waiting slot for each of `ids` added.
pub open spec fn with_waiting(pending: Map<IdView, Slot>, ids: Seq<IdView>) -> Map<IdView, Slot> {
    Map::new(
        |k: IdView| pending.contains_key(k) || ids.contains(k),
        |k: IdView|
            if pending.contains_key(k) {
                pending[k]
            } else {
                Slot::Waiting
            },
    )
}

/// The table with the slots of `ids` taken out.
pub open spec fn without(pending: Map<IdView, Slot>, ids: Seq<IdView>) -> Map<IdView, Slot> {
    Map::new(|k: IdView| pending.contains_key(k) && !ids.contains(k), |k: IdView| pending[k])
}

/// The handle of one dispatched request.
#[derive(Debug)]
pub struct RpcFuture {
    /// The identifier that the response will echo.
    pub id: Id,
    /// Set when the dispatch was refused: nothing is outstanding then, and
    /// the handle resolves to this error.
    pub refusal: Option<TransportError>,
}

/// The handle of one dispatched batch.
#[derive(Debug)]
pub struct BatchRpcFuture {
    ids: Vec<Id>,
    refusal: Option<TransportError>,
}

impl BatchRpcFuture {
    /// The identifiers of the batch, in the order of its envelopes.
    pub closed spec fn members(&self) -> Seq<IdView> {
        views(self.ids@)
    }

    /// The error that the batch resolves to when its dispatch was refused.
    pub closed spec fn refusal(&self) -> Option<TransportError> {
        self.refusal
    }

    /// No two envelopes of an accepted batch share an identifier.
    #[verifier::type_invariant]
    pub closed spec fn wf(&self) -> bool {
        self.refusal is None ==> self.members().no_duplicates()
    }

    /// The members of an accepted batch are pairwise distinct.
    pub proof fn lemma_members_differ(&self)
        requires
            self.wf(),
        ensures
            self.refusal() is None ==> self.members().no_duplicates(),
    {
    }

    /// A handle for the envelopes with the identifiers `ids`.
    pub(crate) fn new(ids: Vec<Id>, refusal: Option<TransportError>) -> (future: BatchRpcFuture)
        requires
            refusal is None ==> views(ids@).no_duplicates(),
        ensures
            future.wf(),
            future.members() == views(ids@),
            future.refusal() == refusal,
    {
        BatchRpcFuture { ids, refusal }
    }

    /// How many envelopes the batch holds.
    pub fn len(&self) -> (n: usize)
        ensures
            n == self.members().len(),
    {
        self.ids.len()
    }

    /// The identifier of the `i`-th envelope, if the batch has that many.
    pub fn id(&self, i: usize) -> (id: Option<&Id>)
        ensures
            id is Some <==> i < self.members().len(),
            id matches Some(found) ==> found@ == self.members()[i as int],
    {
        if i < self.ids.len() {
            Some(&self.ids[i])
        } else {
            None
        }
    }

    pub(crate) fn member(&self, i: usize) -> (id: &Id)
        requires
            i < self.members().len(),
        ensures
            id@ == self.members()[i as int],
    {
        &self.ids[i]
    }

    /// The error that the batch resolves to when its dispatch was refused.
    pub fn refused(&self) -> (refusal: Option<TransportError>)
        ensures
            refusal == self.refusal(),
    {
        self.refusal
    }

}

/// What polling the handle of one request returns, given the table: the
/// refusal of a refused dispatch, nothing while the request waits, and else
/// its outcome.
pub open spec fn poll_outcome(pending: Map<IdView, Slot>, future: RpcFuture) -> Option<
    Result<Reply, TransportError>,
> {
    match future.refusal {
        Some(error) => Some(Err(error)),
        None => if !pending.contains_key(future.id@) {
            Some(Err(TransportError::NotOutstanding))
        } else {
            match pending[future.id@] {
                Slot::Waiting => None,
                Slot::Answered(reply) => Some(Ok(reply)),
                Slot::Failed(error) => Some(Err(error)),
            }
        },
    }
}

/// The table after the handle of one request was polled: an outcome that was
/// collected leaves the table.
pub open spec fn pending_after_poll(pending: Map<IdView, Slot>, future: RpcFuture) -> Map<
    IdView,
    Slot,
> {
    if future.refusal is None && status_of(pending, future.id@) == Status::Settled {
        pending.remove(future.id@)
    } else {
        pending
    }
}

/// The table after the handle of one request was given up: its slot, if it
/// has one, is released.
pub open spec fn pending_after_cancel(pending: Map<IdView, Slot>, future: RpcFuture) -> Map<
    IdView,
    Slot,
> {
    if future.refusal is None {
        pending.remove(future.id@)
    } else {
        pending
    }
}

/// The transport failure that stands first among `slots`, if there is one.
pub open spec fn first_failure(slots: Seq<Slot>) -> Option<TransportError>
    decreases slots.len(),
{
    if slots.len() == 0 {
        None
    } else {
        match first_failure(slots.drop_last()) {
            Some(error) => Some(error),
            None => match slots.last() {
                Slot::Failed(error) => Some(error),
                _ => None,
            },
        }
    }
}

/// The replies that `slots` hold, in order.
pub open spec fn answers(slots: Seq<Slot>) -> Seq<Reply> {
    Seq::new(slots.len(), |i: int| slots[i]->Answered_0)
}

/// What the table says of a batch: absent when a member has no slot, waiting
/// while a member waits, settled when every member has its outcome.
pub open spec fn batch_status(pending: Map<IdView, Slot>, ids: Seq<IdView>) -> Status {
    if exists|i: int| 0 <= i < ids.len() && !pending.contains_key(#[trigger] ids[i]) {
        Status::Absent
    } else if exists|i: int| 0 <= i < ids.len() && pending[#[trigger] ids[i]] is Waiting {
        Status::Waiting
    } else {
        Status::Settled
    }
}


/// What polling the handle of a batch returns, given the table: the refusal
/// of a refused dispatch, nothing while a member waits, the first transport
/// failure among the members if there is one, and else the replies in the
/// order of the envelopes.
pub open spec fn batch_outcome(pending: Map<IdView, Slot>, future: BatchRpcFuture) -> Option<
    Result<Seq<Reply>, TransportError>,
> {
    match future.refusal() {
        Some(error) => Some(Err(error)),
        None => match batch_status(pending, future.members()) {
            Status::Absent => Some(Err(TransportError::NotOutstanding)),
            Status::Waiting => None,
            Status::Settled => match first_failure(slots_in_order(pending, future.members())) {
                Some(error) => Some(Err(error)),
                None => Some(Ok(answers(slots_in_order(pending, future.members())))),
            },
        },
    }
}

/// The table after the handle of a batch was polled: the outcomes of a batch
/// that resolved leave the table together.
pub open spec fn pending_after_batch(pending: Map<IdView, Slot>, future: BatchRpcFuture) -> Map<
    IdView,
    Slot,
> {
    if future.refusal() is None && batch_status(pending, future.members()) == Status::Settled {
        without(pending, future.members())
    } else {
        pending
    }
}

/// The table after the handle of a batch was given up: the slots of its
/// members are released.
pub open spec fn pending_after_batch_cancel(
    pending: Map<IdView, Slot>,
    future: BatchRpcFuture,
) -> Map<IdView, Slot> {
    if future.refusal() is None {
        without(pending, future.members())
    } else {
        pending
    }
}

/// Giving up a request that was just dispatched leaves the table as it was
/// before the dispatch, and so as large as it was: nothing is kept for a call
/// that its caller dropped.
pub proof fn lemma_cancel_releases_slot(pending: Map<IdView, Slot>, future: RpcFuture)
    requires
        future.refusal is None,
        !pending.contains_key(future.id@),
    ensures
        pending_after_cancel(pending.insert(future.id@, Slot::Waiting), future) == pending,
        pending_after_cancel(pending.insert(future.id@, Slot::Waiting), future).len()
            == pending.len(),
{
    assert(pending.insert(future.id@, Slot::Waiting).remove(future.id@) =~= pending);
}

/// Giving up a request whose dispatch was refused touches no slot, not even
/// that of the request which holds its identifier.
pub proof fn lemma_cancel_of_refused_keeps_table(pending: Map<IdView, Slot>, future: RpcFuture)
    requires
        future.refusal is Some,
    ensures
        pending_after_cancel(pending, future) == pending,
{
}

/// Slots that all hold a reply have no transport failure among them.
proof fn lemma_no_failure_among_answers(slots: Seq<Slot>)
    requires
        forall|i: int| 0 <= i < slots.len() ==> (#[trigger] slots[i]) is Answered,
    ensures
        first_failure(slots) is None,
    decreases slots.len(),
{
    if slots.len() > 0 {
        lemma_no_failure_among_answers(slots.drop_last());
    }
}

/// A batch resolves in the order of its envelopes. Once a response has
/// arrived for every member, each identifier answered once, the batch
/// resolves to as many replies as it has envelopes, and the `i`-th of them is
/// the reply that carried the identifier of the `i`-th envelope, wherever
/// among the arrivals it stood.
pub proof fn lemma_batch_resolves_in_request_order(
    pending: Map<IdView, Slot>,
    future: BatchRpcFuture,
    arrivals: Seq<(IdView, Reply)>,
)
    requires
        future.refusal() is None,
        forall|i: int|
            0 <= i < future.members().len() ==> status_of(pending, #[trigger] future.members()[i])
                == Status::Waiting,
        one_response_each(arrivals),
        forall|i: int|
            0 <= i < future.members().len() ==> exists|k: int|
                0 <= k < arrivals.len() && (#[trigger] arrivals[k]).0
                    == #[trigger] future.members()[i],
    ensures
        batch_outcome(settled_all(pending, arrivals), future) matches Some(Ok(replies))
            && replies.len() == future.members().len() && forall|i: int, k: int|
            0 <= i < future.members().len() && 0 <= k < arrivals.len() && (
            #[trigger] arrivals[k]).0 == #[trigger] future.members()[i] ==> replies[i]
                == arrivals[k].1,
{
    let members = future.members();
    let table = settled_all(pending, arrivals);
    let slots = slots_in_order(table, members);
    lemma_settled_all_keeps_keys(pending, arrivals);
    assert forall|i: int| 0 <= i < members.len() implies table.contains_key(
        #[trigger] members[i],
    ) && table[members[i]] is Answered && (forall|k: int|
        0 <= k < arrivals.len() && (#[trigger] arrivals[k]).0 == members[i] ==> table[members[i]]
            == Slot::Answered(arrivals[k].1)) by {
        lemma_settled_all_slot(pending, arrivals, members[i]);
        assert(pending.dom().contains(members[i]));
        let k = choose|k: int| 0 <= k < arrivals.len() && (#[trigger] arrivals[k]).0 == members[i];
        assert(table[members[i]] == Slot::Answered(arrivals[k].1));
    }
    assert(batch_status(table, members) == Status::Settled);
    assert forall|i: int| 0 <= i < slots.len() implies (#[trigger] slots[i]) is Answered by {
        assert(table[members[i]] is Answered);
    }
    lemma_no_failure_among_answers(slots);
    let replies = answers(slots);
    assert forall|i: int, k: int|
        0 <= i < members.len() && 0 <= k < arrivals.len() && (#[trigger] arrivals[k]).0
            == #[trigger] members[i] implies replies[i] == arrivals[k].1 by {
        assert(table[members[i]] == Slot::Answered(arrivals[k].1));
    }
}

} // verus!
