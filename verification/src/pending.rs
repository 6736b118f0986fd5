//! The table of outstanding requests: one slot per identifier, inserted on
//! dispatch and removed when the caller collects the outcome or gives up.

use crate::id::{Id, IdView};
use crate::message::{Reply, TransportError};
use vstd::prelude::*;

verus! {

/// The resolution slot of one outstanding request.
#[derive(Debug)]
pub enum Slot {
    /// No response has arrived yet.
    Waiting,
    /// The remote side answered.
    Answered(Reply),
    /// The request or its response was lost.
    Failed(TransportError),
}

/// What a table says of one identifier.
#[derive(Clone, Copy, Debug, PartialEq, Eq, Structural)]
pub enum Status {
    /// No request with this identifier is outstanding.
    Absent,
    /// The request is outstanding and unanswered.
    Waiting,
    /// The outcome is there, and the caller has not collected it yet.
    Settled,
}

/// The status of `id` in `table`.
pub open spec fn status_of(table: Map<IdView, Slot>, id: IdView) -> Status {
    if !table.contains_key(id) {
        Status::Absent
    } else if table[id] is Waiting {
        Status::Waiting
    } else {
        Status::Settled
    }
}

/// The table after a response for `id` arrived: a waiting slot takes the
/// reply, and a response that nothing waits for changes nothing.
pub open spec fn settled(table: Map<IdView, Slot>, id: IdView, reply: Reply) -> Map<IdView, Slot> {
    if status_of(table, id) == Status::Waiting {
        table.insert(id, Slot::Answered(reply))
    } else {
        table
    }
}

/// The table after the request `id` was lost: a waiting slot takes the error.
pub open spec fn failed(table: Map<IdView, Slot>, id: IdView, error: TransportError) -> Map<
    IdView,
    Slot,
> {
    if status_of(table, id) == Status::Waiting {
        table.insert(id, Slot::Failed(error))
    } else {
        table
    }
}

/// The table after the connection failed: every waiting slot takes the error,
/// and outcomes that had arrived before stay as they are.
pub open spec fn all_failed(table: Map<IdView, Slot>, error: TransportError) -> Map<IdView, Slot> {
    Map::new(
        |k: IdView| table.contains_key(k),
        |k: IdView|
            if table[k] is Waiting {
                Slot::Failed(error)
            } else {
                table[k]
            },
    )
}

/// The table after the responses `arrivals` came in, first to last.
pub open spec fn settled_all(table: Map<IdView, Slot>, arrivals: Seq<(IdView, Reply)>) -> Map<
    IdView,
    Slot,
>
    decreases arrivals.len(),
{
    if arrivals.len() == 0 {
        table
    } else {
        settled(settled_all(table, arrivals.drop_last()), arrivals.last().0, arrivals.last().1)
    }
}

/// No two of the responses carry the same identifier.
pub open spec fn one_response_each(arrivals: Seq<(IdView, Reply)>) -> bool {
    forall|i: int, j: int|
        0 <= i < j < arrivals.len() ==> (#[trigger] arrivals[i]).0 != (#[trigger] arrivals[j]).0
}

/// The slots of `ids`, in the order of `ids`.
pub open spec fn slots_in_order(table: Map<IdView, Slot>, ids: Seq<IdView>) -> Seq<Slot> {
    Seq::new(ids.len(), |i: int| table[ids[i]])
}

/// Responses never open or close a slot, whatever they carry.
pub proof fn lemma_settled_all_keeps_keys(table: Map<IdView, Slot>, arrivals: Seq<(IdView, Reply)>)
    ensures
        settled_all(table, arrivals).dom() == table.dom(),
    decreases arrivals.len(),
{
    if arrivals.len() > 0 {
        lemma_settled_all_keeps_keys(table, arrivals.drop_last());
        assert(settled_all(table, arrivals).dom() =~= settled_all(
            table,
            arrivals.drop_last(),
        ).dom());
    }
}

/// Where each identifier is answered at most once, a slot that waited holds
/// the reply that carried its identifier, wherever among the arrivals that
/// reply stood, and every other slot is untouched.
pub proof fn lemma_settled_all_slot(
    table: Map<IdView, Slot>,
    arrivals: Seq<(IdView, Reply)>,
    id: IdView,
)
    requires
        one_response_each(arrivals),
    ensures
        forall|k: int|
            0 <= k < arrivals.len() && (#[trigger] arrivals[k]).0 == id && status_of(table, id)
                == Status::Waiting ==> settled_all(table, arrivals)[id] == Slot::Answered(
                arrivals[k].1,
            ),
        status_of(table, id) != Status::Waiting || (forall|k: int|
            0 <= k < arrivals.len() ==> (#[trigger] arrivals[k]).0 != id) ==> settled_all(
            table,
            arrivals,
        )[id] == table[id],
    decreases arrivals.len(),
{
    if arrivals.len() > 0 {
        let front = arrivals.drop_last();
        let last = arrivals.len() - 1;
        assert forall|i: int, j: int| 0 <= i < j < front.len() implies (#[trigger] front[i]).0 != (
        #[trigger] front[j]).0 by {
            assert(front[i] == arrivals[i] && front[j] == arrivals[j]);
        }
        lemma_settled_all_slot(table, front, id);
        lemma_settled_all_keeps_keys(table, front);
        assert(settled_all(table, front).contains_key(id) == table.contains_key(id));
        assert forall|k: int|
            0 <= k < arrivals.len() && (#[trigger] arrivals[k]).0 == id && status_of(table, id)
                == Status::Waiting implies settled_all(table, arrivals)[id] == Slot::Answered(
            arrivals[k].1,
        ) by {
            if k < last {
                assert(front[k] == arrivals[k]);
                assert(arrivals[last].0 != arrivals[k].0);
            } else {
                assert forall|j: int| 0 <= j < front.len() implies (#[trigger] front[j]).0
                    != id by {
                    assert(front[j] == arrivals[j]);
                }
            }
        }
        if status_of(table, id) != Status::Waiting || (forall|k: int|
            0 <= k < arrivals.len() ==> (#[trigger] arrivals[k]).0 != id) {
            if status_of(table, id) == Status::Waiting {
                assert(arrivals[last].0 != id);
                assert forall|j: int| 0 <= j < front.len() implies (#[trigger] front[j]).0
                    != id by {
                    assert(front[j] == arrivals[j]);
                }
            }
        }
    }
}

/// A rearrangement of responses, one for each identifier, still holds one for
/// each identifier.
proof fn lemma_rearranged_one_each(first: Seq<(IdView, Reply)>, second: Seq<(IdView, Reply)>)
    requires
        one_response_each(first),
        first.to_multiset() == second.to_multiset(),
    ensures
        one_response_each(second),
{
    first.to_multiset_ensures();
    second.to_multiset_ensures();
    assert(first.no_duplicates());
    first.lemma_multiset_has_no_duplicates();
    second.lemma_multiset_has_no_duplicates_conv();
    assert forall|i: int, j: int| 0 <= i < j < second.len() implies (#[trigger] second[i]).0 != (
    #[trigger] second[j]).0 by {
        if second[i].0 == second[j].0 {
            assert(second.contains(second[i]) && second.contains(second[j]));
            assert(second.to_multiset().count(second[i]) > 0);
            assert(second.to_multiset().count(second[j]) > 0);
            assert(first.to_multiset().count(second[i]) > 0);
            assert(first.to_multiset().count(second[j]) > 0);
            assert(first.contains(second[i]) && first.contains(second[j]));
            let p = choose|p: int| 0 <= p < first.len() && first[p] == second[i];
            let q = choose|q: int| 0 <= q < first.len() && first[q] == second[j];
            assert(first[p].0 == first[q].0);
            assert(p == q);
            assert(second[i] == second[j]);
        }
    }
}

/// The order in which the responses arrive does not matter: two arrival
/// orders of the same responses, one for each identifier, leave the same
/// table.
pub proof fn lemma_arrival_order_irrelevant(
    table: Map<IdView, Slot>,
    first: Seq<(IdView, Reply)>,
    second: Seq<(IdView, Reply)>,
)
    requires
        one_response_each(first),
        first.to_multiset() == second.to_multiset(),
    ensures
        settled_all(table, first) == settled_all(table, second),
{
    lemma_rearranged_one_each(first, second);
    first.to_multiset_ensures();
    second.to_multiset_ensures();
    lemma_settled_all_keeps_keys(table, first);
    lemma_settled_all_keeps_keys(table, second);
    assert forall|id: IdView| table.contains_key(id) implies settled_all(table, first)[id]
        == settled_all(table, second)[id] by {
        lemma_settled_all_slot(table, first, id);
        lemma_settled_all_slot(table, second, id);
        if status_of(table, id) == Status::Waiting {
            if exists|k: int| 0 <= k < first.len() && (#[trigger] first[k]).0 == id {
                let k = choose|k: int| 0 <= k < first.len() && (#[trigger] first[k]).0 == id;
                assert(first.contains(first[k]));
                assert(first.to_multiset().count(first[k]) > 0);
                assert(second.to_multiset().count(first[k]) > 0);
                assert(second.contains(first[k]));
                let m = choose|m: int| 0 <= m < second.len() && second[m] == first[k];
                assert(second[m].0 == id);
            } else {
                if exists|m: int| 0 <= m < second.len() && (#[trigger] second[m]).0 == id {
                    let m = choose|m: int|
                        0 <= m < second.len() && (#[trigger] second[m]).0 == id;
                    assert(second.contains(second[m]));
                    assert(second.to_multiset().count(second[m]) > 0);
                    assert(first.to_multiset().count(second[m]) > 0);
                    assert(first.contains(second[m]));
                    let k = choose|k: int| 0 <= k < first.len() && first[k] == second[m];
                    assert(first[k].0 == id);
                }
            }
        }
    }
    assert(settled_all(table, first) =~= settled_all(table, second));
}

struct Entry {
    id: Id,
    slot: Slot,
}

/// The outstanding requests of one connection.
pub struct PendingTable {
    entries: Vec<Entry>,
    model: Ghost<Map<IdView, Slot>>,
}

impl View for PendingTable {
    type V = Map<IdView, Slot>;

    /// The slot of each outstanding identifier.
    closed spec fn view(&self) -> Map<IdView, Slot> {
        self.model@
    }
}

impl PendingTable {
    /// Each identifier has one entry, and the entries are what the view says.
    pub closed spec fn wf(&self) -> bool {
        &&& forall|i: int|
            0 <= i < self.entries@.len() ==> {
                &&& self.model@.contains_key((#[trigger] self.entries@[i]).id@)
                &&& self.model@[self.entries@[i].id@] == self.entries@[i].slot
            }
        &&& forall|k: IdView|
            self.model@.contains_key(k) ==> exists|i: int|
                0 <= i < self.entries@.len() && (#[trigger] self.entries@[i]).id@ == k
        &&& forall|i: int, j: int|
            0 <= i < j < self.entries@.len() ==> (#[trigger] self.entries@[i]).id@ != (
            #[trigger] self.entries@[j]).id@
        &&& self.model@.dom().finite()
        &&& self.model@.dom().len() == self.entries@.len()
    }

    /// A table with no outstanding request.
    pub fn new() -> (table: PendingTable)
        ensures
            table.wf(),
            table@ == Map::<IdView, Slot>::empty(),
    {
        PendingTable { entries: Vec::new(), model: Ghost(Map::empty()) }
    }

    /// How many requests are outstanding.
    pub fn len(&self) -> (n: usize)
        requires
            self.wf(),
        ensures
            self@.dom().finite(),
            n == self@.len(),
    {
        self.entries.len()
    }

    fn position(&self, id: &Id) -> (found: Option<usize>)
        requires
            self.wf(),
        ensures
            found is Some <==> self@.contains_key(id@),
            found matches Some(i) ==> i < self.entries@.len() && self.entries@[i as int].id@
                == id@,
    {
        let mut i: usize = 0;
        while i < self.entries.len()
            invariant
                self.wf(),
                i <= self.entries@.len(),
                forall|j: int| 0 <= j < i ==> (#[trigger] self.entries@[j]).id@ != id@,
            decreases self.entries@.len() - i,
        {
            if self.entries[i].id.matches(id) {
                return Some(i);
            }
            i += 1;
        }
        None
    }

    /// What the table says of `id`.
    pub fn status(&self, id: &Id) -> (status: Status)
        requires
            self.wf(),
        ensures
            status == status_of(self@, id@),
    {
        match self.position(id) {
            None => Status::Absent,
            Some(i) => match &self.entries[i].slot {
                Slot::Waiting => Status::Waiting,
                _ => Status::Settled,
            },
        }
    }

    /// Opens a waiting slot for `id`, unless one exists already.
    pub fn register(&mut self, id: Id) -> (fresh: bool)
        requires
            old(self).wf(),
        ensures
            final(self).wf(),
            fresh == !old(self)@.contains_key(id@),
            fresh ==> final(self)@ == old(self)@.insert(id@, Slot::Waiting),
            !fresh ==> final(self)@ == old(self)@,
    {
        match self.position(&id) {
            Some(_) => false,
            None => {
                self.model = Ghost(self.model@.insert(id@, Slot::Waiting));
                self.entries.push(Entry { id, slot: Slot::Waiting });
                proof {
                    let last = old(self).entries@.len() as int;
                    assert(self.entries@[last].id@ == id@);
                    assert forall|k: IdView| self.model@.contains_key(k) implies exists|j: int|
                        0 <= j < self.entries@.len() && (#[trigger] self.entries@[j]).id@
                            == k by {
                        if k != id@ {
                            let w = choose|w: int|
                                0 <= w < old(self).entries@.len() && (#[trigger] old(self).entries@[w]).id@ == k;
                            assert(self.entries@[w] == old(self).entries@[w]);
                        }
                    }
                    assert forall|i: int, j: int|
                        0 <= i < j < self.entries@.len() implies (#[trigger] self.entries@[i]).id@
                        != (#[trigger] self.entries@[j]).id@ by {
                        assert(self.entries@[i] == old(self).entries@[i]);
                        if j < last {
                            assert(self.entries@[j] == old(self).entries@[j]);
                        }
                    }
                }
                true
            },
        }
    }

    /// Removes the slot of `id`, whatever it holds, and returns it.
    pub fn remove(&mut self, id: &Id) -> (slot: Option<Slot>)
        requires
            old(self).wf(),
        ensures
            final(self).wf(),
            final(self)@ == old(self)@.remove(id@),
            slot == (if old(self)@.contains_key(id@) {
                Some(old(self)@[id@])
            } else {
                None
            }),
    {
        match self.position(id) {
            None => {
                assert(self@.remove(id@) =~= self@);
                None
            },
            Some(i) => {
                self.model = Ghost(self.model@.remove(id@));
                let entry = self.entries.remove(i);
                assert forall|k: IdView| self.model@.contains_key(k) implies exists|j: int|
                    0 <= j < self.entries@.len() && (#[trigger] self.entries@[j]).id@ == k by {
                    let w = choose|w: int|
                        0 <= w < old(self).entries@.len() && (#[trigger] old(self).entries@[w]).id@ == k;
                    if w < i {
                        assert(self.entries@[w] == old(self).entries@[w]);
                    } else {
                        assert(self.entries@[w - 1] == old(self).entries@[w]);
                    }
                }
                Some(entry.slot)
            },
        }
    }

    fn replace_slot(&mut self, i: usize, slot: Slot)
        requires
            old(self).wf(),
            i < old(self).entries@.len(),
        ensures
            final(self).wf(),
            final(self)@ == old(self)@.insert(old(self).entries@[i as int].id@, slot),
            final(self).entries@.len() == old(self).entries@.len(),
            forall|j: int|
                0 <= j < final(self).entries@.len() ==> (#[trigger] final(self).entries@[j]).id
                    == old(self).entries@[j].id,
            forall|j: int|
                0 <= j < final(self).entries@.len() && j != i ==> (#[trigger] final(self).entries@[j]) == old(self).entries@[j],
    {
        self.model = Ghost(self.model@.insert(self.entries@[i as int].id@, slot));
        self.entries[i].slot = slot;
        proof {
            assert forall|k: IdView| self.model@.contains_key(k) implies exists|j: int|
                0 <= j < self.entries@.len() && (#[trigger] self.entries@[j]).id@ == k by {
                if k == old(self).entries@[i as int].id@ {
                    assert(self.entries@[i as int].id@ == k);
                } else {
                    let w = choose|w: int|
                        0 <= w < old(self).entries@.len() && (#[trigger] old(self).entries@[w]).id@ == k;
                    assert(self.entries@[w].id@ == k);
                }
            }
            assert(self.model@.dom() =~= old(self).model@.dom());
        }
    }

    /// Records the reply to `id`, if a request with this identifier still
    /// waits. A reply that nothing waits for is dropped.
    pub fn settle(&mut self, id: &Id, reply: Reply) -> (accepted: bool)
        requires
            old(self).wf(),
        ensures
            final(self).wf(),
            accepted == (status_of(old(self)@, id@) == Status::Waiting),
            final(self)@ == settled(old(self)@, id@, reply),
    {
        if let Some(i) = self.position(id) {
            if let Slot::Waiting = &self.entries[i].slot {
                self.replace_slot(i, Slot::Answered(reply));
                return true;
            }
        }
        false
    }

    /// Records that the request `id` was lost, if it still waits.
    pub fn fail(&mut self, id: &Id, error: TransportError) -> (accepted: bool)
        requires
            old(self).wf(),
        ensures
            final(self).wf(),
            accepted == (status_of(old(self)@, id@) == Status::Waiting),
            final(self)@ == failed(old(self)@, id@, error),
    {
        if let Some(i) = self.position(id) {
            if let Slot::Waiting = &self.entries[i].slot {
                self.replace_slot(i, Slot::Failed(error));
                return true;
            }
        }
        false
    }

    /// Records that the connection failed: every request that still waits is
    /// lost with `error`.
    pub fn fail_all(&mut self, error: TransportError)
        requires
            old(self).wf(),
        ensures
            final(self).wf(),
            final(self)@ == all_failed(old(self)@, error),
    {
        let mut i: usize = 0;
        while i < self.entries.len()
            invariant
                self.wf(),
                i <= self.entries@.len(),
                self.entries@.len() == old(self).entries@.len(),
                forall|j: int|
                    0 <= j < self.entries@.len() ==> (#[trigger] self.entries@[j]).id == old(self).entries@[j].id,
                forall|j: int|
                    i <= j < self.entries@.len() ==> (#[trigger] self.entries@[j]) == old(self).entries@[j],
                forall|j: int|
                    0 <= j < i ==> (#[trigger] self.entries@[j]).slot == (if old(self).entries@[j].slot is Waiting {
                        Slot::Failed(error)
                    } else {
                        old(self).entries@[j].slot
                    }),
            decreases self.entries@.len() - i,
        {
            if let Slot::Waiting = &self.entries[i].slot {
                self.replace_slot(i, Slot::Failed(error));
            }
            i += 1;
        }
        proof {
            let goal = all_failed(old(self)@, error);
            assert forall|k: IdView| self@.contains_key(k) <==> goal.contains_key(k) by {
                if self@.contains_key(k) {
                    let w = choose|w: int|
                        0 <= w < self.entries@.len() && (#[trigger] self.entries@[w]).id@ == k;
                    assert(old(self).entries@[w].id@ == k);
                }
                if goal.contains_key(k) {
                    let w = choose|w: int|
                        0 <= w < old(self).entries@.len() && (#[trigger] old(self).entries@[w]).id@ == k;
                    assert(self.entries@[w].id@ == k);
                }
            }
            assert forall|k: IdView| self@.contains_key(k) implies self@[k] == goal[k] by {
                let w = choose|w: int|
                    0 <= w < self.entries@.len() && (#[trigger] self.entries@[w]).id@ == k;
                assert(old(self).entries@[w].id@ == k);
            }
            assert(self@ =~= goal);
        }
    }

} // impl PendingTable

} // verus!
