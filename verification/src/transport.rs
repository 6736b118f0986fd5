//! The capability set of a connection, and of one that also delivers pushes.

use crate::call::{CallState, RpcCall, RpcCallView};
use crate::future::{dispatch_refusal, with_waiting, BatchRpcFuture, RpcFuture};
use crate::id::{successor, Id, IdView};
use crate::message::{ids_of, RegistryError, Request};
use crate::pending::Slot;
use crate::registry::{install_outcome, registry_after, uninstall_outcome, Listeners};
use futures_channel::mpsc::UnboundedReceiver;
use serde_json::value::RawValue;
use vstd::prelude::*;

verus! {

/// Values that can be sent over a connection and received from one. How a
/// value is encoded is the caller's business: the core sees the encoded form
/// only.
pub trait RpcObject: Send + Sync + Unpin {

}

impl<T> RpcObject for T where T: Send + Sync + Unpin {

}

/// What every connection offers, whatever physical transport it wraps.
pub trait Connection: Send + Sync {
    /// The connection's bookkeeping is consistent.
    spec fn inv(&self) -> bool;

    /// Calls on this connection do not cross a network.
    spec fn local(&self) -> bool;

    /// The value that the identifier counter hands out next.
    spec fn counter(&self) -> u64;

    /// The connection still takes requests.
    spec fn accepting(&self) -> bool;

    /// The slot of each outstanding request.
    spec fn pending(&self) -> Map<IdView, Slot>;

    /// Whether calls on this connection stay in the process.
    fn is_local(&self) -> (local: bool)
        ensures
            local == self.local(),
    ;

    /// Hands out the counter's value and advances the counter by one.
    fn increment_id(&mut self) -> (issued: u64)
        requires
            old(self).inv(),
        ensures
            final(self).inv(),
            issued == old(self).counter(),
            final(self).counter() == successor(issued),
            final(self).local() == old(self).local(),
            final(self).accepting() == old(self).accepting(),
            final(self).pending() == old(self).pending(),
    ;

    /// Hands out the counter's value as an identifier.
    fn next_id(&mut self) -> (id: Id)
        requires
            old(self).inv(),
        ensures
            final(self).inv(),
            id == Id::Number(old(self).counter()),
            final(self).counter() == successor(old(self).counter()),
            final(self).local() == old(self).local(),
            final(self).accepting() == old(self).accepting(),
            final(self).pending() == old(self).pending(),
    {
        Id::Number(self.increment_id())
    }

    /// Dispatches one envelope: opens a waiting slot for its identifier and
    /// returns the handle that resolves once the response has arrived. The
    /// dispatch is refused when the connection is closed or the identifier is
    /// in use by an outstanding request.
    fn json_rpc_request(&mut self, req: &Request) -> (future: RpcFuture)
        requires
            old(self).inv(),
        ensures
            final(self).inv(),
            final(self).counter() == old(self).counter(),
            final(self).local() == old(self).local(),
            final(self).accepting() == old(self).accepting(),
            future.id@ == req.id@,
            future.refusal == dispatch_refusal(
                old(self).accepting(),
                old(self).pending(),
                seq![req.id@],
            ),
            final(self).pending() == (if future.refusal is None {
                old(self).pending().insert(req.id@, Slot::Waiting)
            } else {
                old(self).pending()
            }),
    ;

    /// Dispatches a sequence of envelopes as one unit: all of them get a
    /// waiting slot, or, when the connection is closed or an identifier is in
    /// use, none does.
    fn batch_request(&mut self, reqs: &[Request]) -> (future: BatchRpcFuture)
        requires
            old(self).inv(),
        ensures
            final(self).inv(),
            final(self).counter() == old(self).counter(),
            final(self).local() == old(self).local(),
            final(self).accepting() == old(self).accepting(),
            future.wf(),
            future.members() == ids_of(reqs@),
            future.refusal() == dispatch_refusal(
                old(self).accepting(),
                old(self).pending(),
                ids_of(reqs@),
            ),
            final(self).pending() == (if future.refusal() is None {
                with_waiting(old(self).pending(), ids_of(reqs@))
            } else {
                old(self).pending()
            }),
    ;

    /// Builds a call with a fresh identifier. Nothing is dispatched: no slot
    /// is opened before the call is driven.
    fn request<Params: RpcObject, Resp: RpcObject>(
        &mut self,
        method: &'static str,
        params: Params,
    ) -> (call: RpcCall<Params, Resp>)
        requires
            old(self).inv(),
        ensures
            final(self).inv(),
            call@ == (RpcCallView {
                id: IdView::Number(old(self).counter()),
                method: method@,
                params,
                state: CallState::Constructed,
                future: None,
            }),
            final(self).counter() == successor(old(self).counter()),
            final(self).local() == old(self).local(),
            final(self).accepting() == old(self).accepting(),
            final(self).pending() == old(self).pending(),
    {
        RpcCall::new(method, params, self.next_id())
    }
}

/// What a connection that delivers pushes offers besides.
pub trait PubSubConnection: Connection {
    /// The active keys, each with what was put on its channel.
    spec fn listeners(&self) -> Listeners;

    /// Removes the listener of `id`, which ends its stream.
    fn uninstall_listener(&mut self, id: [u8; 32]) -> (removed: Result<(), RegistryError>)
        requires
            old(self).inv(),
        ensures
            final(self).inv(),
            final(self).listeners() == registry_after(
                old(self).listeners(),
                uninstall_outcome(old(self).listeners(), id@),
            ),
            removed is Ok <==> uninstall_outcome(old(self).listeners(), id@) is Ok,
            removed matches Err(reason) ==> uninstall_outcome(old(self).listeners(), id@) == Err::<
                Listeners,
                RegistryError,
            >(reason),
            final(self).counter() == old(self).counter(),
            final(self).local() == old(self).local(),
            final(self).accepting() == old(self).accepting(),
            final(self).pending() == old(self).pending(),
    ;

    /// Installs a listener for `id` and returns the stream of its pushes.
    fn install_listener(&mut self, id: [u8; 32]) -> (installed: Result<
        UnboundedReceiver<Box<RawValue>>,
        RegistryError,
    >)
        requires
            old(self).inv(),
        ensures
            final(self).inv(),
            final(self).listeners() == registry_after(
                old(self).listeners(),
                install_outcome(old(self).listeners(), id@),
            ),
            installed is Ok <==> install_outcome(old(self).listeners(), id@) is Ok,
            installed matches Err(reason) ==> install_outcome(old(self).listeners(), id@) == Err::<
                Listeners,
                RegistryError,
            >(reason),
            final(self).counter() == old(self).counter(),
            final(self).local() == old(self).local(),
            final(self).accepting() == old(self).accepting(),
            final(self).pending() == old(self).pending(),
    ;
}

} // verus!
