use wasm_mt_pool::atw::ResultMsg;
use wasm_mt_pool::job::{Job, Outcome};
use wasm_mt_pool::pool::{Completion, Dispatch, Submission, ThreadPool};

fn reply_ok(d: &Dispatch, data: Vec<u8>) -> ResultMsg {
    ResultMsg { id: d.msg.id, is_ok: true, data }
}

fn reply_err(d: &Dispatch, data: Vec<u8>) -> ResultMsg {
    ResultMsg { id: d.msg.id, is_ok: false, data }
}

fn expect_dispatch(s: &Submission) -> &Dispatch {
    match &s.dispatch {
        Some(d) => d,
        None => panic!("expected an immediate dispatch"),
    }
}

#[test]
fn pool_of_two_runs_four_noop_jobs() {
    let mut pool = ThreadPool::new(2);
    pool.init();

    let mut subs = Vec::new();
    for _ in 0..4 {
        subs.push(pool.execute(Vec::new()));
    }
    // two start at once, two wait behind the saturated pool
    assert!(subs[0].dispatch.is_some());
    assert!(subs[1].dispatch.is_some());
    assert!(subs[2].dispatch.is_none());
    assert!(subs[3].dispatch.is_none());
    assert_eq!(pool.count_pending_jobs(), 2);

    let mut live: Vec<Dispatch> = subs.iter_mut().filter_map(|s| s.dispatch.take()).collect();
    while let Some(d) = live.pop() {
        let msg = reply_ok(&d, vec![42]);
        let c = pool.on_message(d.worker, msg).expect("known request");
        if let Some(next) = c.next {
            live.push(next);
        }
    }

    assert_eq!(pool.count_pending_jobs(), 0);
    let settled = pool.settled();
    assert_eq!(settled.len(), 4);
    for s in settled {
        match &s.outcome {
            Outcome::Success(v) => assert_eq!(v, &vec![42]),
            _ => panic!("job should have succeeded with 42"),
        }
    }
}

#[test]
fn queued_job_reuses_the_same_worker() {
    let mut pool = ThreadPool::new(1);
    pool.init();

    let a = pool.execute(vec![1]);
    let b = pool.execute(vec![2]);
    let da = expect_dispatch(&a);
    // B must not start while A holds the only worker
    assert!(b.dispatch.is_none());
    assert_eq!(pool.count_pending_jobs(), 1);

    let c = pool
        .on_message(da.worker, reply_ok(da, vec![7]))
        .expect("known request");
    assert_eq!(c.ticket, a.ticket);
    let next = c.next.expect("the head waiter is served");
    // B receives the very worker A used, checked by its identity
    assert_eq!(next.worker, da.worker);
    let id_a = pool.worker_id(da.worker).expect("named by init").clone();
    let id_b = pool.worker_id(next.worker).expect("named by init").clone();
    assert_eq!(id_a, id_b);
    assert_eq!(id_a, "0");
    assert_eq!(pool.count_pending_jobs(), 0);

    let c2 = pool
        .on_message(next.worker, reply_ok(&next, vec![8]))
        .expect("known request");
    assert_eq!(c2.ticket, b.ticket);
    assert!(c2.next.is_none());
}

#[test]
fn waiters_are_served_in_submission_order() {
    let mut pool = ThreadPool::new(1);
    pool.init();

    let a = pool.execute(vec![0]);
    let b = pool.execute(vec![1]);
    let c = pool.execute(vec![2]);
    let da = expect_dispatch(&a);
    assert_eq!(pool.count_pending_jobs(), 2);

    let c1 = pool
        .on_message(da.worker, reply_ok(da, Vec::new()))
        .expect("known request");
    let db = c1.next.expect("first waiter served");
    let c2 = pool
        .on_message(db.worker, reply_ok(&db, Vec::new()))
        .expect("known request");
    assert_eq!(c2.ticket, b.ticket);
    let dc = c2.next.expect("second waiter served");
    let c3 = pool
        .on_message(dc.worker, reply_ok(&dc, Vec::new()))
        .expect("known request");
    assert_eq!(c3.ticket, c.ticket);
    assert!(c3.next.is_none());
}

#[test]
fn steady_state_backpressure_count() {
    let mut pool = ThreadPool::new(3);
    pool.init();
    for _ in 0..5 {
        pool.execute(Vec::new());
    }
    // five admitted, three in flight: the queue reports the excess
    assert_eq!(pool.count_pending_jobs(), 2);
}

#[test]
fn successful_round_trip_delivers_the_value_once() {
    let mut pool = ThreadPool::new(1);
    pool.init();
    let s = pool.execute(vec![9, 9]);
    let d = expect_dispatch(&s);
    let c = pool
        .on_message(d.worker, reply_ok(d, vec![1, 2, 3]))
        .expect("known request");
    assert_eq!(c.ticket, s.ticket);
    match &c.outcome {
        Outcome::Success(v) => assert_eq!(v, &vec![1, 2, 3]),
        _ => panic!("expected success"),
    }
    let hits = pool
        .settled()
        .iter()
        .filter(|r| r.ticket == s.ticket)
        .count();
    assert_eq!(hits, 1);
}

#[test]
fn job_failure_is_surfaced_verbatim() {
    let mut pool = ThreadPool::new(1);
    pool.init();
    let s = pool.execute(Vec::new());
    let d = expect_dispatch(&s);
    let c = pool
        .on_message(d.worker, reply_err(d, vec![255]))
        .expect("known request");
    match &c.outcome {
        Outcome::JobError(v) => assert_eq!(v, &vec![255]),
        _ => panic!("expected the job's failure value"),
    }
}

#[test]
fn unknown_correlation_id_is_a_fault() {
    let mut pool = ThreadPool::new(1);
    pool.init();
    let s = pool.execute(Vec::new());
    let d = expect_dispatch(&s);
    let bogus = d.msg.id.wrapping_add(1);
    let r = pool.on_message(d.worker, ResultMsg { id: bogus, is_ok: true, data: Vec::new() });
    assert!(r.is_err());
    // the pool is untouched: the real reply still settles
    let c = pool
        .on_message(d.worker, reply_ok(d, Vec::new()))
        .expect("known request");
    assert_eq!(c.ticket, s.ticket);
}

#[test]
fn worker_error_rejects_in_flight_and_serves_the_queue() {
    let mut pool = ThreadPool::new(1);
    pool.init();
    let a = pool.execute(vec![1]);
    let b = pool.execute(vec![2]);
    assert!(b.dispatch.is_none());

    let c = pool.on_worker_error(0).expect("one request was in flight");
    assert_eq!(c.ticket, a.ticket);
    assert!(matches!(c.outcome, Outcome::TransportError));
    let next = c.next.expect("the waiter is handed the worker");
    assert_eq!(next.worker, 0);
    assert_eq!(pool.count_pending_jobs(), 0);

    // a failure with nothing in flight changes nothing
    let c2 = pool
        .on_message(next.worker, reply_ok(&next, Vec::new()))
        .expect("known request");
    assert_eq!(c2.ticket, b.ticket);
    assert!(pool.on_worker_error(0).is_none());
}

#[test]
fn terminate_while_running_and_queued() {
    let mut pool = ThreadPool::new(1);
    pool.init();
    let a = pool.execute(vec![1]);
    let b = pool.execute(vec![2]);
    assert!(b.dispatch.is_none());

    let report = pool.terminate();
    // B was queued: canceled with sequence number 0
    assert_eq!(report.canceled, vec![(b.ticket, 0)]);
    // A was in flight: rejected when its worker was terminated
    assert_eq!(report.aborted, vec![a.ticket]);
    assert_eq!(pool.count_pending_jobs(), 0);
    assert!(pool.terminated());

    let settled = pool.settled();
    assert_eq!(settled.len(), 2);
    assert_eq!(settled[0].ticket, b.ticket);
    assert!(matches!(settled[0].outcome, Outcome::Canceled(0)));
    assert_eq!(settled[1].ticket, a.ticket);
    assert!(matches!(settled[1].outcome, Outcome::TransportError));
}

#[test]
fn terminate_twice_is_idempotent() {
    let mut pool = ThreadPool::new(2);
    pool.init();
    let s = pool.execute(Vec::new());
    assert!(s.dispatch.is_some());

    let first = pool.terminate();
    assert_eq!(first.aborted.len(), 1);
    let settled_after_first = pool.settled().len();

    let second = pool.terminate();
    assert!(second.canceled.is_empty());
    assert!(second.aborted.is_empty());
    assert_eq!(pool.settled().len(), settled_after_first);
    assert!(pool.terminated());
}

#[test]
fn shutdown_drains_every_queued_submission() {
    let mut pool = ThreadPool::new(2);
    pool.init();
    let mut queued = Vec::new();
    for i in 0..6u8 {
        let s = pool.execute(vec![i]);
        if s.dispatch.is_none() {
            queued.push(s.ticket);
        }
    }
    assert_eq!(pool.count_pending_jobs(), 4);
    let report = pool.terminate();
    assert_eq!(pool.count_pending_jobs(), 0);
    assert_eq!(report.canceled.len(), 4);
    for (seq, t) in queued.iter().enumerate() {
        assert_eq!(report.canceled[seq], (*t, seq as u64));
        let hit = pool
            .settled()
            .iter()
            .filter(|r| r.ticket == *t && matches!(r.outcome, Outcome::Canceled(_)))
            .count();
        assert_eq!(hit, 1);
    }
}

#[test]
fn pool_accessors_and_chaining() {
    let pool = ThreadPool::new(3).and_init();
    assert_eq!(pool.size(), 3);
    assert!(pool.initialized());
    assert!(!pool.terminated());
    assert_eq!(pool.count_pending_jobs(), 0);
    assert!(pool.settled().is_empty());
}

#[test]
fn init_names_workers_by_index() {
    let mut pool = ThreadPool::new(12);
    assert!(pool.worker_id(0).is_none());
    pool.init();
    for w in 0..12 {
        assert_eq!(pool.worker_id(w).expect("named by init").as_str(), w.to_string());
    }
    assert!(pool.worker_id(12).is_none());
}

#[test]
fn source_text_jobs_take_the_same_pipeline() {
    let mut pool = ThreadPool::new(1);
    pool.init();
    let s = pool.execute_js(String::from("return 1 + 2;"));
    let d = expect_dispatch(&s);
    match &d.msg.task {
        Job::Js(src) => assert_eq!(src.as_str(), "return 1 + 2;"),
        _ => panic!("expected a synchronous source-text job"),
    }
    let a = pool.execute_js_async(String::from("return x;"));
    assert!(a.dispatch.is_none());
    let b = pool.execute_async(vec![4]);
    assert!(b.dispatch.is_none());
    assert_eq!(pool.count_pending_jobs(), 2);

    let c: Completion = pool
        .on_message(d.worker, reply_ok(d, vec![3]))
        .expect("known request");
    let next = c.next.expect("async source job dispatched next");
    match &next.msg.task {
        Job::JsAsync(src) => assert_eq!(src.as_str(), "return x;"),
        _ => panic!("expected the queued asynchronous source-text job"),
    }
    let c2 = pool
        .on_message(next.worker, reply_ok(&next, Vec::new()))
        .expect("known request");
    let next2 = c2.next.expect("async closure dispatched last");
    match &next2.msg.task {
        Job::AClos(p) => assert_eq!(p, &vec![4]),
        _ => panic!("expected the queued asynchronous closure"),
    }
}
