//! Request envelopes, inbound frames and the error taxonomy.

use crate::id::{Id, IdView};
use serde_json::value::RawValue;
use vstd::prelude::*;

verus! {

/// The wire-level description of one call.
#[derive(Debug)]
pub struct Request {
    /// The identifier that the response will echo.
    pub id: Id,
    /// The name of the remote method.
    pub method: &'static str,
    /// The parameters, already encoded.
    pub params: Box<RawValue>,
}

/// What the remote side answered: a payload, marked as success or as error.
#[derive(Debug)]
pub enum Reply {
    /// The call succeeded; the payload is its result.
    Success(Box<RawValue>),
    /// The remote side reported an error; the payload describes it.
    Failure(Box<RawValue>),
}

/// An inbound response frame.
#[derive(Debug)]
pub struct Response {
    /// The identifier of the request that this answers.
    pub id: Id,
    /// The answer.
    pub reply: Reply,
}

/// An inbound push frame.
#[derive(Debug)]
pub struct Notification {
    /// The subscription that the payload belongs to.
    pub key: [u8; 32],
    /// The pushed value.
    pub payload: Box<RawValue>,
}

/// One frame delivered by the physical transport.
#[derive(Debug)]
pub enum Frame {
    Response(Response),
    Notification(Notification),
}

/// The physical layer could not carry a request or its response.
#[derive(Clone, Copy, Debug, PartialEq, Eq, Structural)]
pub enum TransportError {
    /// The connection closed before a response arrived, or was closed already.
    Closed,
    /// The physical transport would not accept the payload.
    SendFailed,
    /// The envelope could not be serialized.
    Serialization,
    /// The caller's deadline passed.
    Timeout,
    /// The identifier is already in use by an outstanding request.
    DuplicateId,
    /// Nothing is kept for the handle: it was resolved before, or belongs to
    /// another connection.
    NotOutstanding,
}

/// Why a call did not produce a value of the type its caller asked for.
#[derive(Debug)]
pub enum RpcError {
    /// The request or its response was lost.
    Transport(TransportError),
    /// The remote side reported an error, given here as it came.
    Application(Box<RawValue>),
    /// The remote side answered, but the payload, given here as it came,
    /// could not be converted to the type that the caller asked for.
    Decode(Box<RawValue>),
}

/// A listener could not be installed or removed.
#[derive(Clone, Copy, Debug, PartialEq, Eq, Structural)]
pub enum RegistryError {
    /// A listener is already active for the key.
    AlreadyActive,
    /// No listener is active for the key.
    NotFound,
}

/// The identifiers of a sequence of envelopes, in order.
pub open spec fn ids_of(requests: Seq<Request>) -> Seq<IdView> {
    requests.map_values(|r: Request| r.id@)
}

} // verus!
