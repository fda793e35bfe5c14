use task_server::cache::ResultCache;
use task_server::limiter::AdmissionLimiter;
use task_server::server::ComputePlan;
use task_server::server::Readiness;
use task_server::server::ReaderAction;
use task_server::server::ReaderEvent;
use task_server::server::Server;
use task_server::server::WriterAction;
use task_server::task::Task;

fn lines(reqs: &[&[u8]]) -> Vec<Vec<u8>> {
    reqs.iter().map(|r| r.to_vec()).collect()
}

#[test]
fn empty_connection_writes_nothing() {
    let mut cache = ResultCache::new();
    let out = Server::handle_connection(&mut cache, &lines(&[]));
    assert!(out.is_empty());
}

#[test]
fn hit_after_miss_gives_two_equal_bytes() {
    let mut cache = ResultCache::new();
    let out = Server::handle_connection(&mut cache, &lines(&[b"1:42\n", b"1:42\n"]));
    assert_eq!(out.len(), 2);
    assert_eq!(out[0], out[1]);
    assert_eq!(out[0], Task::execute(1, 42));
}

#[test]
fn repeated_line_gives_identical_bytes() {
    let mut cache = ResultCache::new();
    let reqs = lines(&[b"1:9\n", b"1:9\n", b"1:9\n", b"1:9\n", b"1:9\n"]);
    let out = Server::handle_connection(&mut cache, &reqs);
    assert_eq!(out, vec![Task::execute(1, 9); 5]);
}

#[test]
fn mixed_workload_answers_both_requests() {
    let mut cache = ResultCache::new();
    let out = Server::handle_connection(&mut cache, &lines(&[b"0:1\n", b"1:1\n"]));
    assert_eq!(out, vec![Task::execute(0, 1), Task::execute(1, 1)]);
}

#[test]
fn malformed_request_silences_the_connection() {
    let mut cache = ResultCache::new();
    let out = Server::handle_connection(&mut cache, &lines(&[b"9:9\n", b"1:1\n"]));
    assert!(out.is_empty());
    // The sentinel is cached under the raw line.
    assert_eq!(cache.lookup(b"9:9\n"), Some(None));
}

#[test]
fn cache_is_shared_across_connections() {
    let mut cache = ResultCache::new();
    let a = Server::handle_connection(&mut cache, &lines(&[b"0:7\n"]));
    let b = Server::handle_connection(&mut cache, &lines(&[b"0:7\n"]));
    assert_eq!(a, b);
    assert_eq!(cache.lookup(b"0:7\n"), Some(Some(a[0])));
}

#[test]
fn restart_recomputes_the_same_bytes() {
    let reqs = lines(&[b"1:3\n", b"0:3\n", b"1:3\n"]);
    let mut first = ResultCache::new();
    let before = Server::handle_connection(&mut first, &reqs);
    let mut fresh = ResultCache::new();
    let after = Server::handle_connection(&mut fresh, &reqs);
    assert_eq!(before, after);
}

#[test]
fn raw_bytes_are_the_cache_key() {
    let mut cache = ResultCache::new();
    Server::handle_connection(&mut cache, &lines(&[b"1:5\n", b" 1:5\n"]));
    // Same parse, two distinct entries, one value.
    let plain = cache.lookup(b"1:5\n").unwrap().unwrap();
    let padded = cache.lookup(b" 1:5\n").unwrap().unwrap();
    assert_eq!(plain, padded);
}

#[test]
fn all_hit_connection_answers_in_order() {
    let mut cache = ResultCache::new();
    cache.insert(b"a\n".to_vec(), Some(1));
    cache.insert(b"b\n".to_vec(), Some(2));
    cache.insert(b"c\n".to_vec(), Some(3));
    let out = Server::handle_connection(&mut cache, &lines(&[b"c\n", b"a\n", b"b\n", b"a\n"]));
    assert_eq!(out, vec![3, 1, 2, 1]);
}

#[test]
fn reader_answers_hits_and_spawns_misses() {
    let mut cache = ResultCache::new();
    cache.insert(b"1:2\n".to_vec(), Some(77));
    match Server::reader_step(&cache, ReaderEvent::Line(b"1:2\n".to_vec())) {
        ReaderAction::Respond(v) => assert_eq!(v, Some(77)),
        _ => panic!("a cached line must be answered in place"),
    }
    match Server::reader_step(&cache, ReaderEvent::Line(b"1:3\n".to_vec())) {
        ReaderAction::SpawnCompute(l) => assert_eq!(l, b"1:3\n".to_vec()),
        _ => panic!("an uncached line must go to a compute job"),
    }
    assert!(matches!(
        Server::reader_step(&cache, ReaderEvent::Eof),
        ReaderAction::CloseChannel
    ));
    assert!(matches!(
        Server::reader_step(&cache, ReaderEvent::ReadFailure),
        ReaderAction::Abort
    ));
}

#[test]
fn writer_stops_on_sentinel_and_close() {
    assert!(matches!(Server::writer_step(Some(Some(9))), WriterAction::WriteByte(9)));
    assert!(matches!(Server::writer_step(Some(None)), WriterAction::Stop));
    assert!(matches!(Server::writer_step(None), WriterAction::Stop));
}

#[test]
fn plans_admit_only_cpu_work() {
    assert!(matches!(Server::plan_request(b"0:4\n"), ComputePlan::Cpu { seed: 4 }));
    match Server::plan_request(b"1:4\n") {
        ComputePlan::Io { seed, pause_ms } => {
            assert_eq!(seed, 4);
            assert_eq!(pause_ms, Task::io_pause_ms(4));
            assert!(pause_ms <= 2000);
        },
        _ => panic!("an I/O request must plan an I/O body"),
    }
    assert!(matches!(Server::plan_request(b"5:4\n"), ComputePlan::Invalid));
}

#[test]
fn get_task_value_computes_or_fails() {
    assert_eq!(Server::get_task_value(b"0:2\n"), Some(Task::execute(0, 2)));
    assert_eq!(Server::get_task_value(b"1:2\n"), Some(Task::execute(1, 2)));
    assert_eq!(Server::get_task_value(b"nope\n"), None);
}

#[test]
fn readiness_reports_the_bind_outcome() {
    let (msg, enter) = Server::acceptor_decision(Ok(()));
    assert!(matches!(msg, Readiness::Ready));
    assert!(enter);
    let (msg, enter) = Server::acceptor_decision(Err(String::from("address in use")));
    match msg {
        Readiness::BindFailed(reason) => assert_eq!(reason, "address in use"),
        Readiness::Ready => panic!("a failed bind must not report readiness"),
    }
    assert!(!enter);
}

#[test]
fn admission_is_bounded_at_forty() {
    let mut pool = AdmissionLimiter::new();
    for _ in 0..40 {
        assert!(pool.try_acquire());
    }
    assert!(!pool.try_acquire());
    pool.release();
    assert!(pool.try_acquire());
    assert!(!pool.try_acquire());
}

#[test]
fn cache_overwrites_and_grows() {
    let mut cache = ResultCache::new();
    assert_eq!(cache.lookup(b"k"), None);
    cache.insert(b"k".to_vec(), Some(1));
    assert_eq!(cache.lookup(b"k"), Some(Some(1)));
    cache.insert(b"k".to_vec(), Some(2));
    assert_eq!(cache.lookup(b"k"), Some(Some(2)));
    cache.insert(b"j".to_vec(), None);
    assert_eq!(cache.lookup(b"j"), Some(None));
    assert_eq!(cache.lookup(b"k"), Some(Some(2)));
}
