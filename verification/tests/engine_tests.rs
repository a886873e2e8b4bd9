//! Tests for the dispatch engine core, pool sizing, and the fast-path
//! helpers.

use hyperserve::config::{ThreadPoolConfig, SystemInfo};
use hyperserve::engine::{ConcurrentQueue, PoolStats, WorkerAction, worker_step};
use hyperserve::fast_buffer::{FastBuffer, BufferPool, format_usize};
use hyperserve::fast_parser::{parse_method_fast, is_http_11, normalize_header_name,
    parse_content_length, should_keep_alive};
use hyperserve::fast_response::{FastResponse, status_text};
use hyperserve::method::Method;

#[test]
fn test_queue_fifo() {
    let mut q = ConcurrentQueue::new();
    assert!(q.is_empty());
    q.push(1u32);
    q.push(2);
    q.push(3);
    assert_eq!(q.len(), 3);
    assert_eq!(q.pop(), Some(1));
    assert_eq!(q.pop(), Some(2));
    assert_eq!(q.pop(), Some(3));
    assert_eq!(q.pop(), None);
}

#[test]
fn test_no_job_lost() {
    // Submitting N jobs, each bumping a counter when executed, leaves the
    // counter at exactly N after the drain: nothing lost, nothing doubled.
    let n = 100usize;
    let mut q = ConcurrentQueue::new();
    for i in 0..n {
        q.push(i);
    }
    let mut counter = 0usize;
    let mut seen = vec![false; n];
    for job in q.drain() {
        counter += 1;
        assert!(!seen[job]);
        seen[job] = true;
    }
    assert_eq!(counter, n);
    assert!(q.is_empty());
}

#[test]
fn test_pool_stats_balance() {
    let mut stats = PoolStats::new();
    stats.record_submit();
    stats.record_submit();
    assert_eq!(stats.snapshot().queue_size, 2);
    stats.record_take();
    assert_eq!(stats.snapshot().active_threads, 1);
    stats.record_complete();
    let snap = stats.snapshot();
    assert_eq!(snap.total_jobs, 2);
    assert_eq!(snap.completed_jobs, 1);
    assert_eq!(snap.active_threads, 0);
    assert_eq!(snap.queue_size, 1);
}

#[test]
fn test_worker_step_decisions() {
    assert_eq!(worker_step(true, true, 5), (WorkerAction::Exit, 5));
    assert_eq!(worker_step(false, true, 500), (WorkerAction::RunJob, 0));
    assert_eq!(worker_step(false, false, 0), (WorkerAction::SpinWait, 1));
    assert_eq!(worker_step(false, false, 99), (WorkerAction::YieldNow, 100));
    assert_eq!(worker_step(false, false, 999), (WorkerAction::Sleep, 1000));
    assert_eq!(worker_step(false, false, 5000), (WorkerAction::Sleep, 5001));
}

#[test]
fn test_pool_config() {
    let dev = ThreadPoolConfig::development();
    assert_eq!((dev.min_threads, dev.max_threads, dev.target_threads), (2, 4, 4));

    // Eight cores: two reserved, six available.
    let opt = ThreadPoolConfig::optimal(8);
    assert_eq!(opt.min_threads, 6);
    assert_eq!(opt.target_threads, 12);
    assert_eq!(opt.max_threads, 18);

    let cpu = ThreadPoolConfig::cpu_bound(8);
    assert_eq!(cpu.target_threads, 6);

    let info = SystemInfo::detect(8);
    assert_eq!(info.physical_cores, 4);
    assert_eq!(info.numa_nodes, 1);
}

#[test]
fn test_fast_buffer() {
    let mut buf = FastBuffer::with_capacity(64);
    buf.write_all(b"abc");
    buf.write_all(b"def");
    assert_eq!(buf.as_bytes(), b"abcdef");
    let mut out = Vec::new();
    assert_eq!(buf.write_to(&mut out), 6);
    assert_eq!(out, b"abcdef".to_vec());
    buf.clear();
    assert_eq!(buf.as_bytes(), b"");
}

#[test]
fn test_buffer_pool_reuse() {
    let mut pool = BufferPool::new();
    let mut b = pool.get_buffer();
    b.write_all(b"dirty");
    pool.return_buffer(b);
    let b2 = pool.get_buffer();
    assert_eq!(b2.as_bytes(), b"");
}

#[test]
fn test_format_usize() {
    assert_eq!(format_usize(0), b"0".to_vec());
    assert_eq!(format_usize(13), b"13".to_vec());
    assert_eq!(format_usize(1048576), b"1048576".to_vec());
}

#[test]
fn test_parse_method_fast() {
    assert_eq!(parse_method_fast(b"GET"), Some(Method::GET));
    assert_eq!(parse_method_fast(b"POST"), Some(Method::POST));
    assert_eq!(parse_method_fast(b"PUT"), Some(Method::PUT));
    assert_eq!(parse_method_fast(b"DELETE"), Some(Method::DELETE));
    assert_eq!(parse_method_fast(b"HEAD"), Some(Method::HEAD));
    assert_eq!(parse_method_fast(b"POX"), None);
    assert_eq!(parse_method_fast(b"GE"), None);
}

#[test]
fn test_is_http_11() {
    assert!(is_http_11(b"HTTP/1.1"));
    assert!(is_http_11(b"HTTP/1.1 extra"));
    assert!(!is_http_11(b"HTTP/1.0"));
    assert!(!is_http_11(b"HTTP"));
}

#[test]
fn test_normalize_header_name() {
    let mut name = b"Content-TYPE".to_vec();
    normalize_header_name(&mut name);
    assert_eq!(name, b"content-type".to_vec());
}

#[test]
fn test_parse_content_length_fast() {
    assert_eq!(parse_content_length(b"42"), Some(42));
    assert_eq!(parse_content_length(b" 42 "), Some(42));
    assert_eq!(parse_content_length(b""), Some(0));
    assert_eq!(parse_content_length(b"4a2"), None);
}

#[test]
fn test_should_keep_alive() {
    // The version arrives as the part after the slash, e.g. `1.1`.
    assert!(!should_keep_alive(b"1.1", Some(b"close")));
    assert!(!should_keep_alive(b"1.1", Some(b"CLOSE")));
    assert!(should_keep_alive(b"1.1", Some(b"keep-alive")));
    assert!(should_keep_alive(b"1.1", None));
    assert!(!should_keep_alive(b"1.0", None));
}

#[test]
fn test_fast_response() {
    let mut fr = FastResponse::new();
    fr.status(200);
    fr.header(b"X-Fast", b"1");
    fr.body(b"Hello, World!");
    let mut out = Vec::new();
    fr.write_to(&mut out);
    let text = String::from_utf8(out).unwrap();
    assert!(text.starts_with("HTTP/1.1 200 OK\r\n"));
    assert!(text.contains("X-Fast: 1\r\n"));
    assert!(text.contains("Content-Length: 13\r\n"));
    assert!(text.ends_with("\r\n\r\nHello, World!"));
}

#[test]
fn test_fast_response_defaults() {
    let fr = FastResponse::new();
    let mut out = Vec::new();
    fr.write_to(&mut out);
    assert_eq!(String::from_utf8(out).unwrap(), "HTTP/1.1 200 OK\r\n\r\n");
}

#[test]
fn test_status_text() {
    assert_eq!(status_text(200), "OK");
    assert_eq!(status_text(429), "Too Many Requests");
    assert_eq!(status_text(777), "Unknown");
}
