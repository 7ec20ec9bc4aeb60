use std::sync::atomic::{AtomicUsize, Ordering};
use std::sync::Arc;
use std::task::{Wake, Waker};

use coap_lite::error::MessageError;
use golioth_rs::packet::Error;
use golioth_rs::requests::{deliver, receive, Requests};
use golioth_rs::{register_request, request_wait_complete, Golioth, LightDBType};

const TOKEN: [u8; 8] = [1, 2, 3, 4, 5, 6, 7, 8];
const OTHER: [u8; 8] = [1, 2, 3, 4, 5, 6, 7, 9];

struct Counter(AtomicUsize);

impl Wake for Counter {
    fn wake(self: Arc<Self>) {
        self.0.fetch_add(1, Ordering::Relaxed);
    }
}

fn counter() -> (Arc<Counter>, Waker) {
    let count = Arc::new(Counter(AtomicUsize::new(0)));
    (count.clone(), Waker::from(count))
}

fn woken(count: &Arc<Counter>) -> usize {
    count.0.load(Ordering::Relaxed)
}

fn response(token: [u8; 8], payload: &[u8]) -> Vec<u8> {
    let mut bytes = vec![0x68, 0x45, 0x12, 0x34];
    bytes.extend_from_slice(&token);
    if !payload.is_empty() {
        bytes.push(0xff);
        bytes.extend_from_slice(payload);
    }
    bytes
}

fn take(requests: &mut Requests, token: [u8; 8]) -> Option<Vec<u8>> {
    let (_, waker) = counter();
    request_wait_complete(requests, token, &waker).map(|packet| packet.payload)
}

#[test]
fn nothing_is_there_before_a_response() {
    let mut requests = Requests::new();
    assert_eq!(take(&mut requests, TOKEN), None);
    register_request(&mut requests, TOKEN, false);
    assert_eq!(take(&mut requests, TOKEN), None);
}

#[test]
fn response_reaches_its_request() {
    let mut requests = Requests::new();
    register_request(&mut requests, OTHER, false);
    register_request(&mut requests, TOKEN, false);
    assert_eq!(receive(&mut requests, &response(TOKEN, b"true")), Ok(()));
    assert_eq!(take(&mut requests, OTHER), None);
    assert_eq!(take(&mut requests, TOKEN), Some(b"true".to_vec()));
}

#[test]
fn response_fields_are_those_of_the_bytes() {
    let mut requests = Requests::new();
    register_request(&mut requests, TOKEN, false);
    receive(&mut requests, &response(TOKEN, b"5")).unwrap();
    let (_, waker) = counter();
    let packet = request_wait_complete(&mut requests, TOKEN, &waker).unwrap();
    assert_eq!(packet.version, 1);
    assert_eq!(packet.message_type, golioth_rs::packet::MessageType::Acknowledgement);
    assert_eq!(packet.code, 0x45);
    assert_eq!(packet.message_id, 0x1234);
    assert_eq!(packet.token, TOKEN.to_vec());
    assert!(packet.options.is_empty());
    assert_eq!(packet.payload, b"5".to_vec());
}

#[test]
fn response_with_options_is_read() {
    let mut requests = Requests::new();
    register_request(&mut requests, TOKEN, false);
    let mut bytes = response(TOKEN, b"");
    bytes.extend_from_slice(&[0x61, 0x07, 0x61, 0x32, 0xff, b'1']);
    receive(&mut requests, &bytes).unwrap();
    let (_, waker) = counter();
    let packet = request_wait_complete(&mut requests, TOKEN, &waker).unwrap();
    let options: Vec<(u16, Vec<u8>)> =
        packet.options.iter().map(|option| (option.number, option.value.clone())).collect();
    assert_eq!(options, vec![(6, vec![7]), (12, vec![50])]);
    assert_eq!(packet.payload, b"1".to_vec());
}

#[test]
fn response_without_a_payload_is_empty() {
    let mut requests = Requests::new();
    register_request(&mut requests, TOKEN, false);
    receive(&mut requests, &response(TOKEN, b"")).unwrap();
    assert_eq!(take(&mut requests, TOKEN), Some(vec![]));
}

#[test]
fn finished_request_is_removed() {
    let mut requests = Requests::new();
    register_request(&mut requests, TOKEN, false);
    receive(&mut requests, &response(TOKEN, b"1")).unwrap();
    assert_eq!(take(&mut requests, TOKEN), Some(b"1".to_vec()));
    assert_eq!(take(&mut requests, TOKEN), None);
    receive(&mut requests, &response(TOKEN, b"2")).unwrap();
    assert_eq!(take(&mut requests, TOKEN), None);
}

#[test]
fn observer_gets_each_response() {
    let mut requests = Requests::new();
    register_request(&mut requests, TOKEN, true);
    receive(&mut requests, &response(TOKEN, b"1")).unwrap();
    assert_eq!(take(&mut requests, TOKEN), Some(b"1".to_vec()));
    assert_eq!(take(&mut requests, TOKEN), None);
    receive(&mut requests, &response(TOKEN, b"2")).unwrap();
    assert_eq!(take(&mut requests, TOKEN), Some(b"2".to_vec()));
}

#[test]
fn foreign_response_is_ignored() {
    let mut requests = Requests::new();
    register_request(&mut requests, TOKEN, false);
    receive(&mut requests, &response(OTHER, b"1")).unwrap();
    assert_eq!(take(&mut requests, TOKEN), None);
}

#[test]
fn shorter_token_is_foreign() {
    let mut requests = Requests::new();
    register_request(&mut requests, TOKEN, false);
    receive(&mut requests, &[0x64, 0x45, 0, 0, 1, 2, 3, 4, 0xff, b'1']).unwrap();
    assert_eq!(take(&mut requests, TOKEN), None);
}

#[test]
fn untaken_response_is_kept() {
    let mut requests = Requests::new();
    register_request(&mut requests, TOKEN, true);
    receive(&mut requests, &response(TOKEN, b"1")).unwrap();
    receive(&mut requests, &response(TOKEN, b"2")).unwrap();
    assert_eq!(take(&mut requests, TOKEN), Some(b"1".to_vec()));
    assert_eq!(take(&mut requests, TOKEN), None);
}

#[test]
fn duplicate_response_has_no_effect() {
    let mut requests = Requests::new();
    register_request(&mut requests, TOKEN, false);
    receive(&mut requests, &response(TOKEN, b"1")).unwrap();
    receive(&mut requests, &response(TOKEN, b"1")).unwrap();
    assert_eq!(take(&mut requests, TOKEN), Some(b"1".to_vec()));
    assert_eq!(take(&mut requests, TOKEN), None);
}

#[test]
fn requests_with_the_same_token_are_answered_together() {
    let mut requests = Requests::new();
    register_request(&mut requests, TOKEN, false);
    register_request(&mut requests, TOKEN, false);
    receive(&mut requests, &response(TOKEN, b"1")).unwrap();
    assert_eq!(take(&mut requests, TOKEN), Some(b"1".to_vec()));
    assert_eq!(take(&mut requests, TOKEN), Some(b"1".to_vec()));
    assert_eq!(take(&mut requests, TOKEN), None);
}

#[test]
fn asking_leaves_other_requests() {
    let mut requests = Requests::new();
    register_request(&mut requests, OTHER, false);
    register_request(&mut requests, TOKEN, false);
    receive(&mut requests, &response(OTHER, b"1")).unwrap();
    receive(&mut requests, &response(TOKEN, b"2")).unwrap();
    assert_eq!(take(&mut requests, TOKEN), Some(b"2".to_vec()));
    assert_eq!(take(&mut requests, OTHER), Some(b"1".to_vec()));
}

#[test]
fn waiting_task_is_woken() {
    let mut requests = Requests::new();
    register_request(&mut requests, TOKEN, false);
    let (count, waker) = counter();
    assert!(request_wait_complete(&mut requests, TOKEN, &waker).is_none());
    assert_eq!(woken(&count), 0);
    receive(&mut requests, &response(TOKEN, b"1")).unwrap();
    assert_eq!(woken(&count), 1);
    receive(&mut requests, &response(OTHER, b"1")).unwrap();
    assert_eq!(woken(&count), 1);
}

#[test]
fn waiting_task_is_woken_by_a_foreign_response() {
    let mut requests = Requests::new();
    register_request(&mut requests, TOKEN, false);
    let (count, waker) = counter();
    assert!(request_wait_complete(&mut requests, TOKEN, &waker).is_none());
    receive(&mut requests, &response(OTHER, b"1")).unwrap();
    assert_eq!(woken(&count), 1);
}

#[test]
fn task_that_asks_later_replaces_the_waker() {
    let mut requests = Requests::new();
    register_request(&mut requests, TOKEN, false);
    let (first, first_waker) = counter();
    let (second, second_waker) = counter();
    assert!(request_wait_complete(&mut requests, TOKEN, &first_waker).is_none());
    assert!(request_wait_complete(&mut requests, OTHER, &second_waker).is_none());
    assert_eq!(woken(&first), 1);
    receive(&mut requests, &response(TOKEN, b"1")).unwrap();
    assert_eq!(woken(&first), 1);
    assert_eq!(woken(&second), 1);
}

#[test]
fn no_waker_is_left_behind_the_answered_request() {
    let mut requests = Requests::new();
    register_request(&mut requests, TOKEN, false);
    register_request(&mut requests, OTHER, false);
    receive(&mut requests, &response(TOKEN, b"1")).unwrap();
    let (count, waker) = counter();
    assert!(request_wait_complete(&mut requests, TOKEN, &waker).is_some());
    receive(&mut requests, &response(OTHER, b"1")).unwrap();
    assert_eq!(woken(&count), 0);
}

#[test]
fn no_bytes_do_nothing() {
    let mut requests = Requests::new();
    register_request(&mut requests, TOKEN, false);
    let (count, waker) = counter();
    assert!(request_wait_complete(&mut requests, TOKEN, &waker).is_none());
    assert_eq!(receive(&mut requests, &[]), Ok(()));
    assert_eq!(woken(&count), 0);
}

#[test]
fn malformed_bytes_are_refused() {
    let mut requests = Requests::new();
    let cases: Vec<(Vec<u8>, MessageError)> = vec![
        (vec![0x40, 0x45, 0x00], MessageError::InvalidHeader),
        (vec![0x49, 0x45, 0, 0, 1, 2, 3, 4, 5, 6, 7, 8, 9], MessageError::InvalidTokenLength),
        (vec![0x48, 0x45, 0, 0, 1, 2, 3, 4, 5, 6, 7], MessageError::InvalidTokenLength),
        (vec![0x40, 0x45, 0, 0, 0xf0], MessageError::InvalidOptionDelta),
        (vec![0x40, 0x45, 0, 0, 0x0f], MessageError::InvalidOptionLength),
        (vec![0x40, 0x45, 0, 0, 0x02, 0x00], MessageError::InvalidOptionLength),
    ];
    for (bytes, error) in cases {
        assert_eq!(receive(&mut requests, &bytes), Err(Error::Malformed(error)));
    }
}

#[test]
fn malformed_bytes_leave_the_requests() {
    let mut requests = Requests::new();
    register_request(&mut requests, TOKEN, false);
    let (count, waker) = counter();
    assert!(request_wait_complete(&mut requests, TOKEN, &waker).is_none());
    assert!(receive(&mut requests, &[0x68]).is_err());
    assert_eq!(woken(&count), 0);
    receive(&mut requests, &response(TOKEN, b"1")).unwrap();
    assert_eq!(take(&mut requests, TOKEN), Some(b"1".to_vec()));
}

#[test]
fn delivered_packet_is_the_response() {
    let mut requests = Requests::new();
    register_request(&mut requests, TOKEN, false);
    let packet = golioth_rs::golioth::write_message(3, TOKEN, ".d/led", b"0".to_vec());
    deliver(&mut requests, &packet);
    let (_, waker) = counter();
    assert_eq!(request_wait_complete(&mut requests, TOKEN, &waker), Some(packet));
}

#[test]
fn read_gives_the_payload() {
    let mut golioth = Golioth::new();
    let request = golioth.lightdb_read(LightDBType::State, "led").unwrap();
    receive(&mut golioth.requests, &response(request.token, b"{\"blue\":true}")).unwrap();
    assert_eq!(take(&mut golioth.requests, request.token), Some(b"{\"blue\":true}".to_vec()));
    assert_eq!(take(&mut golioth.requests, request.token), None);
}

#[test]
fn observation_gives_each_payload() {
    let mut golioth = Golioth::new();
    let request = golioth.start_observing(TOKEN, "led").unwrap();
    for payload in [b"1", b"2", b"3"] {
        receive(&mut golioth.requests, &response(request.token, payload)).unwrap();
        assert_eq!(take(&mut golioth.requests, request.token), Some(payload.to_vec()));
    }
}

#[test]
fn write_registers_no_request() {
    let mut golioth = Golioth::new();
    let payload: Result<Vec<u8>, ()> = Ok(b"1".to_vec());
    golioth.start_write(TOKEN, LightDBType::State, "led", payload).unwrap();
    receive(&mut golioth.requests, &response(TOKEN, b"1")).unwrap();
    assert_eq!(take(&mut golioth.requests, TOKEN), None);
}

#[test]
fn refused_read_stays_registered() {
    let mut golioth = Golioth::new();
    let path = "x".repeat(1300);
    assert!(golioth.start_read(TOKEN, LightDBType::State, &path).is_err());
    receive(&mut golioth.requests, &response(TOKEN, b"1")).unwrap();
    assert_eq!(take(&mut golioth.requests, TOKEN), Some(b"1".to_vec()));
}

#[test]
fn registering_keeps_waiting_tasks() {
    let mut requests = Requests::new();
    register_request(&mut requests, TOKEN, false);
    let (count, waker) = counter();
    assert!(request_wait_complete(&mut requests, TOKEN, &waker).is_none());
    register_request(&mut requests, OTHER, false);
    assert_eq!(woken(&count), 0);
    receive(&mut requests, &response(TOKEN, b"1")).unwrap();
    assert_eq!(woken(&count), 1);
}

#[test]
fn removal_keeps_the_wakers_of_later_requests() {
    let mut requests = Requests::new();
    register_request(&mut requests, TOKEN, false);
    receive(&mut requests, &response(TOKEN, b"1")).unwrap();
    register_request(&mut requests, OTHER, false);
    let (count, waker) = counter();
    assert!(request_wait_complete(&mut requests, OTHER, &waker).is_none());
    assert_eq!(take(&mut requests, TOKEN), Some(b"1".to_vec()));
    assert_eq!(woken(&count), 0);
    receive(&mut requests, &response(OTHER, b"2")).unwrap();
    assert_eq!(woken(&count), 1);
}
