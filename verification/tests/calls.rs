use serde_json::value::RawValue;
use transports::call::{classify, CallState, RpcCall};
use transports::correlator::{Correlator, Routed};
use transports::future::RpcFuture;
use transports::id::Id;
use transports::message::{Frame, Reply, Request, Response, RpcError, TransportError};
use transports::pending::Status;
use transports::transport::Connection;

fn raw(text: &str) -> Box<RawValue> {
    RawValue::from_string(text.to_string()).unwrap()
}

fn success(id: u64, text: &str) -> Frame {
    Frame::Response(Response { id: Id::Number(id), reply: Reply::Success(raw(text)) })
}

fn failure(id: u64, text: &str) -> Frame {
    Frame::Response(Response { id: Id::Number(id), reply: Reply::Failure(raw(text)) })
}

fn envelope(id: u64, method: &'static str) -> Request {
    Request { id: Id::Number(id), method, params: raw("{}") }
}

fn as_u64(payload: &RawValue) -> Option<u64> {
    serde_json::from_str::<u64>(payload.get()).ok()
}

fn as_text(payload: &RawValue) -> Option<String> {
    serde_json::from_str::<String>(payload.get()).ok()
}

#[test]
fn request_builds_a_cold_call() {
    let mut connection = Correlator::new(false, 1);
    let call: RpcCall<Vec<u8>, u64> = connection.request("foo", vec![1, 2]);
    assert_eq!(call.state(), CallState::Constructed);
    assert_eq!(*call.id(), Id::Number(1));
    assert_eq!(call.method(), "foo");
    assert_eq!(*call.params(), vec![1, 2]);
    assert!(call.future().is_none());
    assert_eq!(connection.outstanding(), 0);
    assert_eq!(connection.status(&Id::Number(1)), Status::Absent);
}

#[test]
fn each_request_takes_a_fresh_identifier() {
    let mut connection = Correlator::new(false, 1);
    let first: RpcCall<(), u64> = connection.request("foo", ());
    let second: RpcCall<(), u64> = connection.request("bar", ());
    assert_eq!(*first.id(), Id::Number(1));
    assert_eq!(*second.id(), Id::Number(2));
}

#[test]
fn responses_in_reverse_order_reach_their_own_calls() {
    let mut connection = Correlator::new(false, 1);
    let mut foo: RpcCall<(), String> = connection.request("foo", ());
    let mut bar: RpcCall<(), String> = connection.request("bar", ());
    assert!(foo.dispatch(&mut connection, Some(raw("{}"))));
    assert!(bar.dispatch(&mut connection, Some(raw("{}"))));
    assert_eq!(connection.outstanding(), 2);

    assert_eq!(connection.handle_frame(success(2, "\"for bar\"")), Routed::Settled);
    assert!(connection.poll(foo.future().unwrap()).is_none());
    assert_eq!(connection.handle_frame(success(1, "\"for foo\"")), Routed::Settled);

    let foo_raw = connection.poll(foo.future().unwrap()).unwrap();
    let bar_raw = connection.poll(bar.future().unwrap()).unwrap();
    assert_eq!(foo.settle(foo_raw, as_text).unwrap().unwrap(), "for foo");
    assert_eq!(bar.settle(bar_raw, as_text).unwrap().unwrap(), "for bar");
    assert_eq!(foo.state(), CallState::Settled);
    assert_eq!(bar.state(), CallState::Settled);
    assert_eq!(connection.outstanding(), 0);
}

#[test]
fn dispatch_opens_one_waiting_slot() {
    let mut connection = Correlator::new(false, 9);
    let mut call: RpcCall<(), u64> = connection.request("foo", ());
    assert!(call.dispatch(&mut connection, Some(raw("[]"))));
    assert_eq!(call.state(), CallState::Dispatched);
    assert_eq!(connection.outstanding(), 1);
    assert_eq!(connection.status(&Id::Number(9)), Status::Waiting);
    let future = call.future().unwrap();
    assert_eq!(future.id, Id::Number(9));
    assert_eq!(future.refusal, None);
}

#[test]
fn a_call_is_dispatched_once() {
    let mut connection = Correlator::new(false, 1);
    let mut call: RpcCall<(), u64> = connection.request("foo", ());
    assert!(call.dispatch(&mut connection, Some(raw("{}"))));
    assert!(!call.dispatch(&mut connection, Some(raw("{}"))));
    assert_eq!(call.state(), CallState::Dispatched);
    assert_eq!(call.future().unwrap().refusal, None);
    assert_eq!(connection.outstanding(), 1);
}

#[test]
fn a_settled_call_never_changes_again() {
    let mut connection = Correlator::new(false, 1);
    let mut call: RpcCall<(), u64> = connection.request("foo", ());
    call.dispatch(&mut connection, Some(raw("{}")));
    connection.handle_frame(success(1, "17"));
    let outcome = connection.poll(call.future().unwrap()).unwrap();
    assert_eq!(call.settle(outcome, as_u64).unwrap().unwrap(), 17);
    assert_eq!(call.state(), CallState::Settled);
    assert!(call.settle(Ok(Reply::Success(raw("18"))), as_u64).is_none());
    assert!(!call.dispatch(&mut connection, Some(raw("{}"))));
    assert_eq!(call.state(), CallState::Settled);
    assert_eq!(connection.outstanding(), 0);
}

#[test]
fn a_call_that_was_not_dispatched_ignores_an_outcome() {
    let mut call: RpcCall<(), u64> = RpcCall::new("foo", (), Id::Number(3));
    assert!(call.settle(Ok(Reply::Success(raw("1"))), as_u64).is_none());
    assert_eq!(call.state(), CallState::Constructed);
}

#[test]
fn parameters_that_cannot_be_encoded_are_a_transport_error() {
    let mut connection = Correlator::new(false, 1);
    let mut call: RpcCall<(), u64> = connection.request("foo", ());
    assert!(call.dispatch(&mut connection, None));
    assert_eq!(call.state(), CallState::Dispatched);
    assert_eq!(connection.outstanding(), 0);
    assert_eq!(call.future().unwrap().refusal, Some(TransportError::Serialization));
    let outcome = connection.poll(call.future().unwrap()).unwrap();
    match call.settle(outcome, as_u64) {
        Some(Err(RpcError::Transport(TransportError::Serialization))) => {}
        other => panic!("unexpected result: {:?}", other),
    }
    assert_eq!(call.state(), CallState::Settled);
}

#[test]
fn an_error_reported_by_the_remote_side_is_passed_on() {
    let mut connection = Correlator::new(false, 1);
    let mut call: RpcCall<(), u64> = connection.request("foo", ());
    call.dispatch(&mut connection, Some(raw("{}")));
    assert_eq!(
        connection.handle_frame(failure(1, "{\"code\":-32601,\"message\":\"no such method\"}")),
        Routed::Settled
    );
    let outcome = connection.poll(call.future().unwrap()).unwrap();
    match call.settle(outcome, as_u64) {
        Some(Err(RpcError::Application(payload))) => {
            assert_eq!(payload.get(), "{\"code\":-32601,\"message\":\"no such method\"}")
        }
        other => panic!("unexpected result: {:?}", other),
    }
}

#[test]
fn a_payload_of_another_type_is_a_decode_error() {
    let mut connection = Correlator::new(false, 1);
    let mut call: RpcCall<(), u64> = connection.request("foo", ());
    call.dispatch(&mut connection, Some(raw("{}")));
    connection.handle_frame(success(1, "\"not a number\""));
    let outcome = connection.poll(call.future().unwrap()).unwrap();
    match call.settle(outcome, as_u64) {
        Some(Err(RpcError::Decode(payload))) => assert_eq!(payload.get(), "\"not a number\""),
        other => panic!("unexpected result: {:?}", other),
    }
}

#[test]
fn classify_tells_the_three_errors_apart() {
    match classify(Err(TransportError::Timeout), as_u64) {
        Err(RpcError::Transport(TransportError::Timeout)) => {}
        other => panic!("unexpected result: {:?}", other),
    }
    match classify(Ok(Reply::Failure(raw("\"no\""))), as_u64) {
        Err(RpcError::Application(payload)) => assert_eq!(payload.get(), "\"no\""),
        other => panic!("unexpected result: {:?}", other),
    }
    match classify(Ok(Reply::Success(raw("[1]"))), as_u64) {
        Err(RpcError::Decode(payload)) => assert_eq!(payload.get(), "[1]"),
        other => panic!("unexpected result: {:?}", other),
    }
    assert_eq!(classify(Ok(Reply::Success(raw("42"))), as_u64).unwrap(), 42);
}

#[test]
fn classify_does_not_decode_an_error_payload() {
    let result: Result<u64, RpcError> =
        classify(Ok(Reply::Failure(raw("7"))), |_: &RawValue| -> Option<u64> {
            panic!("an error payload is not decoded")
        });
    match result {
        Err(RpcError::Application(payload)) => assert_eq!(payload.get(), "7"),
        other => panic!("unexpected result: {:?}", other),
    }
}

#[test]
fn an_identifier_in_use_is_refused() {
    let mut connection = Correlator::new(false, 1);
    let first = connection.json_rpc_request(&envelope(5, "foo"));
    let second = connection.json_rpc_request(&envelope(5, "bar"));
    assert_eq!(first.refusal, None);
    assert_eq!(second.refusal, Some(TransportError::DuplicateId));
    assert_eq!(second.id, Id::Number(5));
    assert_eq!(connection.outstanding(), 1);
    match connection.poll(&second) {
        Some(Err(TransportError::DuplicateId)) => {}
        other => panic!("unexpected result: {:?}", other),
    }
    assert_eq!(connection.status(&Id::Number(5)), Status::Waiting);
}

#[test]
fn giving_up_a_refused_handle_leaves_the_other_request_alone() {
    let mut connection = Correlator::new(false, 1);
    let first = connection.json_rpc_request(&envelope(5, "foo"));
    let second = connection.json_rpc_request(&envelope(5, "bar"));
    connection.cancel(second);
    assert_eq!(connection.status(&Id::Number(5)), Status::Waiting);
    connection.handle_frame(success(5, "1"));
    match connection.poll(&first) {
        Some(Ok(Reply::Success(payload))) => assert_eq!(payload.get(), "1"),
        other => panic!("unexpected result: {:?}", other),
    }
}

#[test]
fn an_identifier_is_free_again_once_its_request_was_collected() {
    let mut connection = Correlator::new(false, 1);
    let first = connection.json_rpc_request(&envelope(5, "foo"));
    connection.handle_frame(success(5, "1"));
    assert!(connection.poll(&first).is_some());
    let again = connection.json_rpc_request(&envelope(5, "foo"));
    assert_eq!(again.refusal, None);
    assert_eq!(connection.outstanding(), 1);
}

#[test]
fn string_identifiers_are_correlated_too() {
    let mut connection = Correlator::new(false, 1);
    let request =
        Request { id: Id::String("alpha".to_string()), method: "foo", params: raw("{}") };
    let future = connection.json_rpc_request(&request);
    assert_eq!(future.refusal, None);
    let frame = Frame::Response(Response {
        id: Id::String("beta".to_string()),
        reply: Reply::Success(raw("0")),
    });
    assert_eq!(connection.handle_frame(frame), Routed::Unmatched);
    let frame = Frame::Response(Response {
        id: Id::String("alpha".to_string()),
        reply: Reply::Success(raw("1")),
    });
    assert_eq!(connection.handle_frame(frame), Routed::Settled);
    match connection.poll(&future) {
        Some(Ok(Reply::Success(payload))) => assert_eq!(payload.get(), "1"),
        other => panic!("unexpected result: {:?}", other),
    }
}

#[test]
fn dropping_a_call_releases_its_slot() {
    let mut connection = Correlator::new(false, 1);
    let kept = connection.json_rpc_request(&envelope(100, "kept"));
    let baseline = connection.outstanding();
    let mut call: RpcCall<(), u64> = connection.request("foo", ());
    call.dispatch(&mut connection, Some(raw("{}")));
    assert_eq!(connection.outstanding(), baseline + 1);
    connection.cancel(call.into_future().unwrap());
    assert_eq!(connection.outstanding(), baseline);
    assert_eq!(connection.status(&Id::Number(1)), Status::Absent);
    assert_eq!(connection.status(&kept.id), Status::Waiting);
}

#[test]
fn dropping_a_call_that_was_answered_releases_its_slot() {
    let mut connection = Correlator::new(false, 1);
    let future = connection.json_rpc_request(&envelope(1, "foo"));
    connection.handle_frame(success(1, "1"));
    assert_eq!(connection.outstanding(), 1);
    connection.cancel(future);
    assert_eq!(connection.outstanding(), 0);
}

#[test]
fn dropping_a_call_that_was_never_dispatched_changes_nothing() {
    let mut connection = Correlator::new(false, 1);
    let call: RpcCall<(), u64> = connection.request("foo", ());
    assert!(call.into_future().is_none());
    assert_eq!(connection.outstanding(), 0);
}

#[test]
fn a_response_after_the_call_was_dropped_is_discarded() {
    let mut connection = Correlator::new(false, 1);
    let future = connection.json_rpc_request(&envelope(1, "foo"));
    connection.cancel(future);
    assert_eq!(connection.handle_frame(success(1, "1")), Routed::Unmatched);
    assert_eq!(connection.outstanding(), 0);
}

#[test]
fn a_response_that_nothing_waits_for_is_discarded() {
    let mut connection = Correlator::new(false, 1);
    assert_eq!(connection.handle_frame(success(77, "1")), Routed::Unmatched);
    assert_eq!(connection.outstanding(), 0);
}

#[test]
fn the_first_response_wins() {
    let mut connection = Correlator::new(false, 1);
    let future = connection.json_rpc_request(&envelope(1, "foo"));
    assert_eq!(connection.handle_frame(success(1, "\"first\"")), Routed::Settled);
    assert_eq!(connection.handle_frame(success(1, "\"second\"")), Routed::Unmatched);
    assert_eq!(connection.status(&Id::Number(1)), Status::Settled);
    match connection.poll(&future) {
        Some(Ok(Reply::Success(payload))) => assert_eq!(payload.get(), "\"first\""),
        other => panic!("unexpected result: {:?}", other),
    }
}

#[test]
fn polling_a_handle_that_nothing_is_kept_for_is_an_error() {
    let mut connection = Correlator::new(false, 1);
    let stray = RpcFuture { id: Id::Number(3), refusal: None };
    match connection.poll(&stray) {
        Some(Err(TransportError::NotOutstanding)) => {}
        other => panic!("unexpected result: {:?}", other),
    }
    let future = connection.json_rpc_request(&envelope(1, "foo"));
    connection.handle_frame(success(1, "1"));
    assert!(connection.poll(&future).unwrap().is_ok());
    match connection.poll(&future) {
        Some(Err(TransportError::NotOutstanding)) => {}
        other => panic!("unexpected result: {:?}", other),
    }
}

#[test]
fn a_request_that_could_not_be_sent_resolves_to_the_error() {
    let mut connection = Correlator::new(false, 1);
    let future = connection.json_rpc_request(&envelope(1, "foo"));
    assert!(connection.fail(&future, TransportError::SendFailed));
    assert!(!connection.fail(&future, TransportError::Timeout));
    assert_eq!(connection.handle_frame(success(1, "1")), Routed::Unmatched);
    match connection.poll(&future) {
        Some(Err(TransportError::SendFailed)) => {}
        other => panic!("unexpected result: {:?}", other),
    }
    assert_eq!(connection.outstanding(), 0);
}

#[test]
fn a_deadline_that_passed_resolves_to_a_timeout() {
    let mut connection = Correlator::new(false, 1);
    let mut call: RpcCall<(), u64> = connection.request("foo", ());
    call.dispatch(&mut connection, Some(raw("{}")));
    assert!(connection.fail(call.future().unwrap(), TransportError::Timeout));
    let outcome = connection.poll(call.future().unwrap()).unwrap();
    match call.settle(outcome, as_u64) {
        Some(Err(RpcError::Transport(TransportError::Timeout))) => {}
        other => panic!("unexpected result: {:?}", other),
    }
}

#[test]
fn failing_a_refused_handle_touches_nothing() {
    let mut connection = Correlator::new(false, 1);
    let first = connection.json_rpc_request(&envelope(1, "foo"));
    let second = connection.json_rpc_request(&envelope(1, "foo"));
    assert!(!connection.fail(&second, TransportError::SendFailed));
    assert_eq!(connection.status(&first.id), Status::Waiting);
}

#[test]
fn a_failed_connection_resolves_every_waiting_request() {
    let mut connection = Correlator::new(false, 1);
    let answered = connection.json_rpc_request(&envelope(1, "foo"));
    let waiting = connection.json_rpc_request(&envelope(2, "bar"));
    let also_waiting = connection.json_rpc_request(&envelope(3, "baz"));
    connection.handle_frame(success(1, "\"in time\""));
    assert!(connection.is_open());
    connection.shutdown(TransportError::Closed);
    assert!(!connection.is_open());
    match connection.poll(&answered) {
        Some(Ok(Reply::Success(payload))) => assert_eq!(payload.get(), "\"in time\""),
        other => panic!("unexpected result: {:?}", other),
    }
    match connection.poll(&waiting) {
        Some(Err(TransportError::Closed)) => {}
        other => panic!("unexpected result: {:?}", other),
    }
    match connection.poll(&also_waiting) {
        Some(Err(TransportError::Closed)) => {}
        other => panic!("unexpected result: {:?}", other),
    }
    assert_eq!(connection.outstanding(), 0);
}

#[test]
fn a_failed_connection_takes_no_further_request() {
    let mut connection = Correlator::new(false, 1);
    connection.shutdown(TransportError::Closed);
    let future = connection.json_rpc_request(&envelope(1, "foo"));
    assert_eq!(future.refusal, Some(TransportError::Closed));
    assert_eq!(connection.outstanding(), 0);
    match connection.poll(&future) {
        Some(Err(TransportError::Closed)) => {}
        other => panic!("unexpected result: {:?}", other),
    }
    let mut call: RpcCall<(), u64> = connection.request("foo", ());
    assert!(call.dispatch(&mut connection, Some(raw("{}"))));
    assert_eq!(call.future().unwrap().refusal, Some(TransportError::Closed));
}
