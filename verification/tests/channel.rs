use wasm_mt_pool::atw::{
    atw_decode_req_msg, atw_decode_result_msg, atw_encode_req_msg, atw_encode_result_msg,
    Transport,
};
use wasm_mt_pool::job::{Job, SendError};
use wasm_mt_pool::thread::Thread;
use wasm_mt_pool::utils::{decimal_string, Counter};

#[test]
fn request_message_round_trip() {
    let msg = atw_encode_req_msg(77, Job::Clos(vec![1, 2]));
    assert_eq!(msg.id, 77);
    let (id, task) = atw_decode_req_msg(msg);
    assert_eq!(id, 77);
    match task {
        Job::Clos(p) => assert_eq!(p, vec![1, 2]),
        _ => panic!("expected the closure payload back"),
    }
}

#[test]
fn result_message_round_trip() {
    let msg = atw_encode_result_msg(5, vec![9], false);
    let (id, data, is_ok) = atw_decode_result_msg(msg);
    assert_eq!(id, 5);
    assert_eq!(data, vec![9]);
    assert!(!is_ok);
}

#[test]
fn correlation_ids_are_fresh_and_settle_once() {
    let mut ch = Transport::new();
    let id1 = ch.send_request(1).expect("open channel accepts a request");
    let id2 = ch.send_request(2).expect("open channel accepts a request");
    assert_ne!(id1, id2);
    assert_eq!(ch.pending_count(), 2);
    assert!(ch.contains_id(id1));

    assert_eq!(ch.on_result(id2).expect("live id"), 2);
    assert_eq!(ch.pending_count(), 1);
    // a second reply for the same id is a protocol violation
    assert!(ch.on_result(id2).is_err());
    assert_eq!(ch.on_result(id1).expect("live id"), 1);
    assert_eq!(ch.pending_count(), 0);
}

#[test]
fn channel_failure_rejects_every_pending_request_in_order() {
    let mut ch = Transport::new();
    ch.send_request(10).expect("open channel");
    ch.send_request(11).expect("open channel");
    ch.send_request(12).expect("open channel");
    let tickets = ch.cancel_pending_requests();
    assert_eq!(tickets, vec![10, 11, 12]);
    assert_eq!(ch.pending_count(), 0);
    assert!(!ch.is_terminated());
}

#[test]
fn terminated_channel_rejects_sends_and_stays_closed() {
    let mut ch = Transport::new();
    ch.send_request(3).expect("open channel");
    let dropped = ch.terminate();
    assert_eq!(dropped, vec![3]);
    assert!(ch.is_terminated());
    assert!(matches!(ch.send_request(4), Err(SendError::Terminated)));
    // terminating again is a no-op
    assert!(ch.terminate().is_empty());
    assert!(ch.is_terminated());
}

#[test]
fn worker_handle_executes_after_handshake() {
    let mut th = Thread::new().and_init();
    let msg = th.execute(vec![8], 21).expect("open channel");
    match &msg.task {
        Job::Clos(p) => assert_eq!(p, &vec![8]),
        _ => panic!("expected a closure job"),
    }
    assert_eq!(th.on_result(msg.id).expect("live id"), 21);
}

#[test]
fn worker_handle_runs_source_text() {
    let mut th = Thread::new().and_init();
    let msg = th.execute_js(String::from("return 0;"), 1).expect("open channel");
    match &msg.task {
        Job::Js(src) => assert_eq!(src.as_str(), "return 0;"),
        _ => panic!("expected source text"),
    }
    let amsg = th.execute_js_async(String::from("return y;"), 2).expect("open channel");
    match &amsg.task {
        Job::JsAsync(src) => assert_eq!(src.as_str(), "return y;"),
        _ => panic!("expected asynchronous source text"),
    }
}

#[test]
fn worker_handle_identity_and_busy_flag() {
    let mut th = Thread::new();
    assert!(th.get_id().is_none());
    th.set_id(String::from("0"));
    assert_eq!(th.get_id().expect("identity set").as_str(), "0");
    assert!(!th.get_busy());
    th.set_busy(true);
    assert!(th.get_busy());
    th.set_busy(false);
    assert!(!th.get_busy());
}

#[test]
fn worker_handle_terminate_is_idempotent() {
    let mut th = Thread::new().and_init();
    let msg = th.execute_async(vec![1], 30).expect("open channel");
    assert!(!th.is_terminated());
    let dropped = th.terminate();
    assert_eq!(dropped, vec![30]);
    assert!(th.is_terminated());
    assert!(th.terminate().is_empty());
    assert!(matches!(th.execute(vec![2], 31), Err(SendError::Terminated)));
    // the reply to the dropped request now refers to no live request
    assert!(th.on_result(msg.id).is_err());
}

#[test]
fn worker_handle_drains_without_closing() {
    let mut th = Thread::new().and_init();
    th.execute(vec![0], 40).expect("open channel");
    let dropped = th.cancel_pending_requests();
    assert_eq!(dropped, vec![40]);
    assert!(!th.is_terminated());
    // the channel is still usable after the drain
    th.execute(vec![1], 41).expect("open channel");
}

#[test]
fn decimal_strings_for_worker_names() {
    assert_eq!(decimal_string(0), "0");
    assert_eq!(decimal_string(7), "7");
    assert_eq!(decimal_string(10), "10");
    assert_eq!(decimal_string(305), "305");
    assert_eq!(decimal_string(usize::MAX), usize::MAX.to_string());
}

#[test]
fn counter_counts_monotonically() {
    let mut c = Counter::new();
    assert_eq!(c.num(), 0);
    assert_eq!(c.inc(), 1);
    assert_eq!(c.inc(), 2);
    assert_eq!(c.num(), 2);
}
