//! One call, from the moment it is built to the moment it has its result.

use crate::future::{dispatch_refusal, RpcFuture};
use crate::id::{Id, IdView};
use crate::message::{Reply, Request, RpcError, TransportError};
use crate::pending::Slot;
use crate::transport::Connection;
use core::marker::PhantomData;
use serde_json::value::RawValue;
use vstd::prelude::*;

verus! {

/// How far a call has come. A call only moves forward.
#[derive(Clone, Copy, Debug, PartialEq, Eq, Structural)]
pub enum CallState {
    /// Built; nothing was sent.
    Constructed,
    /// Dispatched; the response is awaited.
    Dispatched,
    /// Resolved, to a value or to an error. This is final.
    Settled,
}

/// What the raw outcome of a request means to the caller, given what
/// `decode` makes of a success payload: the value `decoded`, or none.
pub open spec fn classified<Resp>(
    outcome: Result<Reply, TransportError>,
    decoded: Option<Resp>,
) -> Result<Resp, RpcError> {
    match outcome {
        Err(error) => Err(RpcError::Transport(error)),
        Ok(Reply::Failure(payload)) => Err(RpcError::Application(payload)),
        Ok(Reply::Success(payload)) => match decoded {
            Some(value) => Ok(value),
            None => Err(RpcError::Decode(payload)),
        },
    }
}

/// Turns the raw outcome of a request into the caller's result: a lost
/// request is a transport error, an error reported by the remote side is
/// passed on as it came, and a success payload is handed to `decode`, whose
/// failure is a decode error that carries the payload.
pub fn classify<Resp, F: FnOnce(&RawValue) -> Option<Resp>>(
    outcome: Result<Reply, TransportError>,
    decode: F,
) -> (result: Result<Resp, RpcError>)
    requires
        forall|payload: &RawValue| call_requires(decode, (payload,)),
    ensures
        outcome matches Ok(Reply::Success(payload)) ==> exists|decoded: Option<Resp>|
            call_ensures(decode, (&*payload,), decoded) && result == classified(
                outcome,
                decoded,
            ),
        !(outcome matches Ok(Reply::Success(_))) ==> result == classified::<Resp>(outcome, None),
{
    match outcome {
        Err(error) => Err(RpcError::Transport(error)),
        Ok(Reply::Failure(payload)) => Err(RpcError::Application(payload)),
        Ok(Reply::Success(payload)) => {
            let decoded = decode(&payload);
            let ghost seen = decoded;
            let result = match decoded {
                Some(value) => Ok(value),
                None => Err(RpcError::Decode(payload)),
            };
            assert(call_ensures(decode, (&*payload,), seen));
            assert(result == classified(outcome, seen));
            result
        },
    }
}

/// A single-shot call: built cold, dispatched once, resolved once.
pub struct RpcCall<Params, Resp> {
    id: Id,
    method: &'static str,
    params: Params,
    state: CallState,
    future: Option<RpcFuture>,
    resp: PhantomData<Resp>,
}

/// What an [`RpcCall`] stands for in contracts.
pub struct RpcCallView<Params> {
    pub id: IdView,
    pub method: Seq<char>,
    pub params: Params,
    pub state: CallState,
    pub future: Option<RpcFuture>,
}

impl<Params, Resp> View for RpcCall<Params, Resp> {
    type V = RpcCallView<Params>;

    closed spec fn view(&self) -> RpcCallView<Params> {
        RpcCallView {
            id: self.id@,
            method: self.method@,
            params: self.params,
            state: self.state,
            future: self.future,
        }
    }
}

impl<Params, Resp> RpcCall<Params, Resp> {
    /// Builds a call. Nothing is sent.
    pub fn new(method: &'static str, params: Params, id: Id) -> (call: Self)
        ensures
            call@ == (RpcCallView {
                id: id@,
                method: method@,
                params,
                state: CallState::Constructed,
                future: None,
            }),
    {
        RpcCall { id, method, params, state: CallState::Constructed, future: None, resp: PhantomData }
    }

    /// The identifier of the call.
    pub fn id(&self) -> (id: &Id)
        ensures
            id@ == self@.id,
    {
        &self.id
    }

    /// The name of the remote method.
    pub fn method(&self) -> (method: &'static str)
        ensures
            method@ == self@.method,
    {
        self.method
    }

    /// The parameters of the call.
    pub fn params(&self) -> (params: &Params)
        ensures
            *params == self@.params,
    {
        &self.params
    }

    /// How far the call has come.
    pub fn state(&self) -> (state: CallState)
        ensures
            state == self@.state,
    {
        self.state
    }

    /// The handle of the dispatch, once the call was dispatched.
    pub fn future(&self) -> (future: Option<&RpcFuture>)
        ensures
            future matches Some(f) ==> self@.future == Some(*f),
            future is None <==> self@.future is None,
    {
        self.future.as_ref()
    }

    /// Gives the call up and returns the handle of its dispatch, if there is
    /// one, so that the connection can release the slot.
    pub fn into_future(self) -> (future: Option<RpcFuture>)
        ensures
            future == self@.future,
    {
        self.future
    }

    /// Dispatches the call on `conn`, with its parameters in the encoded form
    /// `encoded`, or with none where they could not be encoded. Only a call
    /// that was never dispatched is: on any other this does nothing. A call
    /// whose parameters could not be encoded is not handed to the connection
    /// and resolves to a serialization error.
    pub fn dispatch<C: Connection>(&mut self, conn: &mut C, encoded: Option<Box<RawValue>>) -> (dispatched:
        bool)
        requires
            old(conn).inv(),
        ensures
            final(conn).inv(),
            final(conn).counter() == old(conn).counter(),
            final(conn).local() == old(conn).local(),
            final(conn).accepting() == old(conn).accepting(),
            dispatched == (old(self)@.state == CallState::Constructed),
            !dispatched ==> final(self)@ == old(self)@ && final(conn).pending() == old(conn).pending(),
            dispatched ==> {
                &&& final(self)@.id == old(self)@.id
                &&& final(self)@.method == old(self)@.method
                &&& final(self)@.params == old(self)@.params
                &&& final(self)@.state == CallState::Dispatched
                &&& final(self)@.future matches Some(future)
                &&& future.id@ == old(self)@.id
                &&& future.refusal == (if encoded is None {
                    Some(TransportError::Serialization)
                } else {
                    dispatch_refusal(
                        old(conn).accepting(),
                        old(conn).pending(),
                        seq![old(self)@.id],
                    )
                })
                &&& final(conn).pending() == (if future.refusal is None {
                    old(conn).pending().insert(old(self)@.id, Slot::Waiting)
                } else {
                    old(conn).pending()
                })
            },
    {
        match self.state {
            CallState::Constructed => {
                let future = match encoded {
                    None => RpcFuture {
                        id: self.id.clone(),
                        refusal: Some(TransportError::Serialization),
                    },
                    Some(params) => {
                        let request = Request { id: self.id.clone(), method: self.method, params };
                        conn.json_rpc_request(&request)
                    },
                };
                self.future = Some(future);
                self.state = CallState::Dispatched;
                true
            },
            _ => false,
        }
    }

    /// Resolves a dispatched call with the raw `outcome` of its request. A
    /// call that is not awaiting its response ignores the outcome and returns
    /// nothing: a settled call never changes again.
    pub fn settle<F: FnOnce(&RawValue) -> Option<Resp>>(
        &mut self,
        outcome: Result<Reply, TransportError>,
        decode: F,
    ) -> (result: Option<Result<Resp, RpcError>>)
        requires
            forall|payload: &RawValue| call_requires(decode, (payload,)),
        ensures
            old(self)@.state != CallState::Dispatched ==> result is None && final(self)@ == old(self)@,
            old(self)@.state == CallState::Dispatched ==> {
                &&& final(self)@.id == old(self)@.id
                &&& final(self)@.method == old(self)@.method
                &&& final(self)@.params == old(self)@.params
                &&& final(self)@.state == CallState::Settled
                &&& final(self)@.future is None
                &&& result matches Some(settled)
                &&& outcome matches Ok(Reply::Success(payload)) ==> exists|decoded: Option<Resp>|
                    call_ensures(decode, (&*payload,), decoded) && settled == classified(
                        outcome,
                        decoded,
                    )
                &&& !(outcome matches Ok(Reply::Success(_))) ==> settled == classified::<Resp>(
                    outcome,
                    None,
                )
            },
    {
        match self.state {
            CallState::Dispatched => {
                self.state = CallState::Settled;
                self.future = None;
                Some(classify(outcome, decode))
            },
            _ => None,
        }
    }
}

} // verus!
