use serde_json::value::RawValue;
use transports::correlator::{Correlator, Routed};
use transports::id::Id;
use transports::message::{Frame, Reply, Request, Response, TransportError};
use transports::pending::Status;
use transports::transport::Connection;

fn raw(text: &str) -> Box<RawValue> {
    RawValue::from_string(text.to_string()).unwrap()
}

fn success(id: u64, text: &str) -> Frame {
    Frame::Response(Response { id: Id::Number(id), reply: Reply::Success(raw(text)) })
}

fn failure(id: u64, text: &str) -> Frame {
    Frame::Response(Response { id: Id::Number(id), reply: Reply::Failure(raw(text)) })
}

fn envelope(id: u64, method: &'static str) -> Request {
    Request { id: Id::Number(id), method, params: raw("{}") }
}

fn texts(replies: &[Reply]) -> Vec<String> {
    let mut out = Vec::new();
    for reply in replies {
        match reply {
            Reply::Success(payload) => out.push(format!("ok:{}", payload.get())),
            Reply::Failure(payload) => out.push(format!("err:{}", payload.get())),
        }
    }
    out
}

#[test]
fn a_batch_is_answered_in_the_order_of_its_envelopes() {
    let mut connection = Correlator::new(false, 1);
    let batch = connection.batch_request(&[envelope(1, "a"), envelope(2, "b"), envelope(3, "c")]);
    assert_eq!(batch.refused(), None);
    assert_eq!(batch.len(), 3);
    assert_eq!(connection.outstanding(), 3);

    assert_eq!(connection.handle_frame(success(3, "\"C\"")), Routed::Settled);
    assert!(connection.poll_batch(&batch).is_none());
    assert_eq!(connection.handle_frame(success(1, "\"A\"")), Routed::Settled);
    assert!(connection.poll_batch(&batch).is_none());
    assert_eq!(connection.handle_frame(success(2, "\"B\"")), Routed::Settled);

    let replies = connection.poll_batch(&batch).unwrap().unwrap();
    assert_eq!(texts(&replies), vec!["ok:\"A\"", "ok:\"B\"", "ok:\"C\""]);
    assert_eq!(connection.outstanding(), 0);
}

#[test]
fn every_arrival_order_gives_the_same_batch_result() {
    let orders: [[u64; 3]; 6] =
        [[1, 2, 3], [1, 3, 2], [2, 1, 3], [2, 3, 1], [3, 1, 2], [3, 2, 1]];
    for order in orders.iter() {
        let mut connection = Correlator::new(false, 1);
        let batch =
            connection.batch_request(&[envelope(1, "a"), envelope(2, "b"), envelope(3, "c")]);
        for id in order.iter() {
            let text = format!("{}", id * 10);
            assert_eq!(connection.handle_frame(success(*id, &text)), Routed::Settled);
        }
        let replies = connection.poll_batch(&batch).unwrap().unwrap();
        assert_eq!(replies.len(), 3);
        assert_eq!(texts(&replies), vec!["ok:10", "ok:20", "ok:30"]);
    }
}

#[test]
fn a_batch_follows_the_order_of_its_envelopes_not_of_its_identifiers() {
    let mut connection = Correlator::new(false, 1);
    let batch = connection.batch_request(&[envelope(9, "a"), envelope(4, "b"), envelope(7, "c")]);
    connection.handle_frame(success(4, "4"));
    connection.handle_frame(success(7, "7"));
    connection.handle_frame(success(9, "9"));
    let replies = connection.poll_batch(&batch).unwrap().unwrap();
    assert_eq!(texts(&replies), vec!["ok:9", "ok:4", "ok:7"]);
    assert_eq!(*batch.id(0).unwrap(), Id::Number(9));
    assert_eq!(*batch.id(1).unwrap(), Id::Number(4));
    assert_eq!(*batch.id(2).unwrap(), Id::Number(7));
    assert!(batch.id(3).is_none());
}

#[test]
fn a_batch_waits_until_every_member_has_its_outcome() {
    let mut connection = Correlator::new(false, 1);
    let batch = connection.batch_request(&[envelope(1, "a"), envelope(2, "b")]);
    assert!(connection.poll_batch(&batch).is_none());
    connection.handle_frame(success(2, "2"));
    assert!(connection.poll_batch(&batch).is_none());
    assert_eq!(connection.outstanding(), 2);
    assert_eq!(connection.status(&Id::Number(2)), Status::Settled);
    assert_eq!(connection.status(&Id::Number(1)), Status::Waiting);
}

#[test]
fn a_member_that_failed_remotely_does_not_abort_its_siblings() {
    let mut connection = Correlator::new(false, 1);
    let batch = connection.batch_request(&[envelope(1, "a"), envelope(2, "b"), envelope(3, "c")]);
    connection.handle_frame(success(1, "1"));
    connection.handle_frame(failure(2, "\"refused\""));
    connection.handle_frame(success(3, "3"));
    let replies = connection.poll_batch(&batch).unwrap().unwrap();
    assert_eq!(texts(&replies), vec!["ok:1", "err:\"refused\"", "ok:3"]);
}

#[test]
fn a_lost_connection_fails_the_whole_batch() {
    let mut connection = Correlator::new(false, 1);
    let batch = connection.batch_request(&[envelope(1, "a"), envelope(2, "b"), envelope(3, "c")]);
    connection.handle_frame(success(1, "1"));
    connection.shutdown(TransportError::Closed);
    match connection.poll_batch(&batch) {
        Some(Err(TransportError::Closed)) => {}
        other => panic!("unexpected result: {:?}", other),
    }
    assert_eq!(connection.outstanding(), 0);
}

#[test]
fn a_batch_resolves_to_the_first_transport_failure_among_its_members() {
    let mut connection = Correlator::new(false, 1);
    let batch = connection.batch_request(&[envelope(1, "a"), envelope(2, "b"), envelope(3, "c")]);
    let third = transports::future::RpcFuture { id: Id::Number(3), refusal: None };
    let second = transports::future::RpcFuture { id: Id::Number(2), refusal: None };
    assert!(connection.fail(&third, TransportError::Timeout));
    assert!(connection.fail(&second, TransportError::SendFailed));
    connection.handle_frame(success(1, "1"));
    match connection.poll_batch(&batch) {
        Some(Err(TransportError::SendFailed)) => {}
        other => panic!("unexpected result: {:?}", other),
    }
    assert_eq!(connection.outstanding(), 0);
}

#[test]
fn an_empty_batch_resolves_at_once() {
    let mut connection = Correlator::new(false, 1);
    let batch = connection.batch_request(&[]);
    assert_eq!(batch.refused(), None);
    assert_eq!(batch.len(), 0);
    let replies = connection.poll_batch(&batch).unwrap().unwrap();
    assert!(replies.is_empty());
    assert_eq!(connection.outstanding(), 0);
}

#[test]
fn a_batch_with_a_repeated_identifier_is_refused_as_a_whole() {
    let mut connection = Correlator::new(false, 1);
    let batch = connection.batch_request(&[envelope(1, "a"), envelope(2, "b"), envelope(1, "c")]);
    assert_eq!(batch.refused(), Some(TransportError::DuplicateId));
    assert_eq!(connection.outstanding(), 0);
    match connection.poll_batch(&batch) {
        Some(Err(TransportError::DuplicateId)) => {}
        other => panic!("unexpected result: {:?}", other),
    }
}

#[test]
fn a_batch_that_collides_with_an_outstanding_request_is_refused_as_a_whole() {
    let mut connection = Correlator::new(false, 1);
    let single = connection.json_rpc_request(&envelope(2, "x"));
    let batch = connection.batch_request(&[envelope(1, "a"), envelope(2, "b"), envelope(3, "c")]);
    assert_eq!(batch.refused(), Some(TransportError::DuplicateId));
    assert_eq!(connection.outstanding(), 1);
    assert_eq!(connection.status(&Id::Number(1)), Status::Absent);
    assert_eq!(connection.status(&Id::Number(3)), Status::Absent);
    connection.cancel_batch(batch);
    assert_eq!(connection.status(&single.id), Status::Waiting);
}

#[test]
fn a_closed_connection_refuses_a_batch() {
    let mut connection = Correlator::new(false, 1);
    connection.shutdown(TransportError::Closed);
    let batch = connection.batch_request(&[envelope(1, "a")]);
    assert_eq!(batch.refused(), Some(TransportError::Closed));
    assert_eq!(connection.outstanding(), 0);
}

#[test]
fn giving_up_a_batch_releases_every_member() {
    let mut connection = Correlator::new(false, 1);
    let kept = connection.json_rpc_request(&envelope(10, "kept"));
    let baseline = connection.outstanding();
    let batch = connection.batch_request(&[envelope(1, "a"), envelope(2, "b"), envelope(3, "c")]);
    connection.handle_frame(success(2, "2"));
    assert_eq!(connection.outstanding(), baseline + 3);
    connection.cancel_batch(batch);
    assert_eq!(connection.outstanding(), baseline);
    assert_eq!(connection.status(&kept.id), Status::Waiting);
    assert_eq!(connection.handle_frame(success(1, "1")), Routed::Unmatched);
}

#[test]
fn polling_a_batch_twice_finds_nothing_the_second_time() {
    let mut connection = Correlator::new(false, 1);
    let batch = connection.batch_request(&[envelope(1, "a")]);
    connection.handle_frame(success(1, "1"));
    assert!(connection.poll_batch(&batch).unwrap().is_ok());
    match connection.poll_batch(&batch) {
        Some(Err(TransportError::NotOutstanding)) => {}
        other => panic!("unexpected result: {:?}", other),
    }
}

#[test]
fn batches_and_single_requests_share_one_table() {
    let mut connection = Correlator::new(false, 1);
    let single = connection.json_rpc_request(&envelope(1, "x"));
    let batch = connection.batch_request(&[envelope(2, "a"), envelope(3, "b")]);
    connection.handle_frame(success(3, "3"));
    connection.handle_frame(success(1, "1"));
    connection.handle_frame(success(2, "2"));
    match connection.poll(&single) {
        Some(Ok(Reply::Success(payload))) => assert_eq!(payload.get(), "1"),
        other => panic!("unexpected result: {:?}", other),
    }
    let replies = connection.poll_batch(&batch).unwrap().unwrap();
    assert_eq!(texts(&replies), vec!["ok:2", "ok:3"]);
}
