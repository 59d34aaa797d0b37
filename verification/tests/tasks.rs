//! What a task does and counts, and the responses that it reads.
use plumbrs::client::ClientType;
use plumbrs::http1::{
    find_complete_response, is_chunked_slice, parse_chunked_body, parse_usize, response_end,
    status_of, take_decoded, take_response, Head,
};
use plumbrs::options::Options;
use plumbrs::stats::{RealtimeStats, Statistics};
use plumbrs::worker::{profile, should_stop, Action, Event, Phase, Worker};

fn options(requests: Option<u32>) -> Options {
    let mut opts = Options::default();
    opts.uri = vec!["http://example.com/".to_string()];
    opts.requests = requests;
    opts
}

#[test]
fn numbers_in_headers() {
    assert_eq!(parse_usize(b"123"), Some(123));
    assert_eq!(parse_usize(b"  42"), Some(42));
    assert_eq!(parse_usize(b""), None);
    assert_eq!(parse_usize(b"x"), None);
}

#[test]
fn chunked_stands_alone() {
    assert!(is_chunked_slice(b"chunked"));
    assert!(is_chunked_slice(b" Chunked\t"));
    assert!(!is_chunked_slice(b"gzip, chunked"));
    assert!(!is_chunked_slice(b"gzip"));
}

#[test]
fn chunked_bodies() {
    assert_eq!(parse_chunked_body(b"3\r\nabc\r\n0\r\n\r\n"), Some(13));
    assert_eq!(parse_chunked_body(b"a\r\n0123456789\r\n0\r\n\r\nrest"), Some(20));
    assert_eq!(parse_chunked_body(b"3\r\nabc\r\n0\r\nx: y\r\n\r\n"), Some(19));
    assert_eq!(parse_chunked_body(b"3\r\nabc\r\n"), None);
    assert_eq!(parse_chunked_body(b"3\r\nab"), None);
    assert_eq!(parse_chunked_body(b""), None);
}

#[test]
fn a_complete_body_stays_complete() {
    let body = b"3\r\nabc\r\n0\r\n\r\n".to_vec();
    let mut longer = body.clone();
    longer.extend_from_slice(b"HTTP/1.1 200 OK\r\n");
    assert_eq!(parse_chunked_body(&body), parse_chunked_body(&longer));
}

#[test]
fn complete_responses() {
    let ok = b"HTTP/1.1 200 OK\r\ncontent-length: 2\r\n\r\nok";
    assert_eq!(find_complete_response(ok), Some((ok.len(), 200)));
    assert_eq!(find_complete_response(&ok[..ok.len() - 1]), None);
    let none = b"HTTP/1.1 204 No Content\r\n\r\n";
    assert_eq!(find_complete_response(none), Some((none.len(), 204)));
    let chunked = b"HTTP/1.1 404 Not Found\r\nTransfer-Encoding: chunked\r\n\r\n1\r\nx\r\n0\r\n\r\n";
    assert_eq!(find_complete_response(chunked), Some((chunked.len(), 404)));
    let bare = b"HTTP/1.1 200 OK\r\n\r\n";
    assert_eq!(find_complete_response(bare), Some((bare.len(), 200)));
    assert_eq!(find_complete_response(b"HTTP/1.1 200"), None);
    assert_eq!(find_complete_response(b"garbage\r\n\r\n"), None);
}

#[test]
fn heads_tell_where_a_response_ends() {
    let head = Head {
        len: 4,
        code: Some(200),
        headers: vec![("Content-Length".to_string(), b"3".to_vec())],
    };
    assert_eq!(response_end(b"HEADabc", &head), Some((7, 200)));
    assert_eq!(response_end(b"HEADab", &head), None);
    let odd = Head {
        len: 4,
        code: Some(99),
        headers: vec![],
    };
    assert_eq!(response_end(b"HEAD", &odd), Some((4, 200)));
}

#[test]
fn responses_are_taken_one_by_one() {
    let mut buffer = b"HTTP/1.1 200 OK\r\ncontent-length: 2\r\n\r\nokHTTP/1.1 500 X\r\n\r\nHT".to_vec();
    assert_eq!(take_response(&mut buffer), Some(200));
    assert_eq!(take_response(&mut buffer), Some(500));
    assert_eq!(take_response(&mut buffer), None);
    assert_eq!(buffer, b"HT".to_vec());
}

#[test]
fn responses_are_decoded_one_by_one() {
    let mut buffer = b"HTTP/1.1 200 OK\r\ncontent-length: 2\r\n\r\nokHTTP/1.1 503 X\r\ncontent-length: 0\r\n\r\n".to_vec();
    assert_eq!(take_decoded(&mut buffer), Some(200));
    assert_eq!(take_decoded(&mut buffer), Some(503));
    assert!(buffer.is_empty());
    assert_eq!(take_decoded(&mut buffer), None);
    assert_eq!(status_of(None), 500);
    assert_eq!(status_of(Some(99)), 500);
    assert_eq!(status_of(Some(404)), 404);
}

#[test]
fn enough_requests_or_enough_time() {
    let mut opts = options(Some(3));
    assert!(!should_stop(2, 0, &opts));
    assert!(should_stop(3, 0, &opts));
    opts.requests = None;
    opts.duration = Some(10);
    assert!(!should_stop(99, 10, &opts));
    assert!(should_stop(0, 11, &opts));
}

#[test]
fn a_task_makes_its_requests_and_stops() {
    let opts = options(Some(2));
    let rt = RealtimeStats::default();
    let mut w = Worker::new(ClientType::Hyper, 0, 0, &opts);
    assert_eq!(w.phase(), Phase::Fresh);
    let a = w.step(Event::Started, 0, &opts, &rt);
    assert_eq!(a, Action::Connect { announce: true, generation: 0 });
    let a = w.step(Event::Connected, 0, &opts, &rt);
    assert_eq!(a, Action::Send { close: false, body: None });
    let a = w.step(Event::Responded(200, 150), 0, &opts, &rt);
    assert_eq!(a, Action::Wait);
    let a = w.step(Event::Ready, 0, &opts, &rt);
    assert_eq!(a, Action::Send { close: false, body: None });
    let a = w.step(Event::Responded(404, 150), 0, &opts, &rt);
    assert_eq!(a, Action::Stop);
    assert_eq!(w.phase(), Phase::Over);
    let s = w.into_statistics();
    assert_eq!(s.ok(), 1);
    assert_eq!(s.status_4xx(), 1);
    assert_eq!(rt.take(), (1, 1, 0));
}

#[test]
fn failures_count_like_requests() {
    let opts = options(Some(2));
    let rt = RealtimeStats::default();
    let mut w = Worker::new(ClientType::HyperMcp, 1, 0, &opts);
    let a = w.step(Event::Started, 0, &opts, &rt);
    assert_eq!(a, Action::Connect { announce: false, generation: 0 });
    let a = w.step(Event::Failed("refused".to_string()), 0, &opts, &rt);
    assert_eq!(a, Action::Connect { announce: false, generation: 1 });
    let a = w.step(Event::Failed("refused".to_string()), 0, &opts, &rt);
    assert_eq!(a, Action::Stop);
    let s = w.into_statistics();
    assert_eq!(s.errors(), 2);
    assert_eq!(s.errors_map(), &vec![("refused".to_string(), 2)]);
    assert_eq!(s.conn(), 0);
}

#[test]
fn the_last_request_of_a_connection_closes_it() {
    let mut opts = options(Some(5));
    opts.rpc = 2;
    let rt = RealtimeStats::default();
    let mut w = Worker::new(ClientType::HyperMcp, 1, 0, &opts);
    assert_eq!(
        w.step(Event::Started, 0, &opts, &rt),
        Action::Connect { announce: false, generation: 0 }
    );
    assert_eq!(w.step(Event::Connected, 0, &opts, &rt), Action::Initialize);
    assert_eq!(
        w.step(Event::Initialized(3), 0, &opts, &rt),
        Action::Send { close: false, body: Some(0) }
    );
    assert_eq!(w.step(Event::Responded(202, 1), 0, &opts, &rt), Action::Wait);
    assert_eq!(
        w.step(Event::Ready, 0, &opts, &rt),
        Action::Send { close: true, body: Some(1) }
    );
    assert_eq!(
        w.step(Event::Responded(200, 1), 0, &opts, &rt),
        Action::Connect { announce: false, generation: 1 }
    );
    assert_eq!(
        w.step(Event::Connected, 0, &opts, &rt),
        Action::Send { close: false, body: Some(2) }
    );
    assert_eq!(w.step(Event::Responded(200, 1), 0, &opts, &rt), Action::Wait);
    assert_eq!(
        w.step(Event::Ready, 0, &opts, &rt),
        Action::Send { close: true, body: Some(0) }
    );
    let s = w.into_statistics();
    assert_eq!(s.ok(), 3);
    assert_eq!(s.conn(), 2);
}

#[test]
fn a_raw_client_reads_the_bytes_itself() {
    let opts = options(Some(1));
    let rt = RealtimeStats::default();
    let mut w = Worker::new(ClientType::TokioUring, 0, 0, &opts);
    assert_eq!(
        w.step(Event::Started, 0, &opts, &rt),
        Action::Connect { announce: true, generation: 0 }
    );
    assert!(matches!(
        w.step(Event::Connected, 0, &opts, &rt),
        Action::Send { .. }
    ));
    assert_eq!(w.step(Event::Written, 0, &opts, &rt), Action::Receive);
    let a = w.step(Event::Received(b"HTTP/1.1 200 OK\r\n".to_vec(), 5), 0, &opts, &rt);
    assert_eq!(a, Action::Receive);
    let a = w.step(Event::Received(b"\r\n".to_vec(), 9), 0, &opts, &rt);
    assert_eq!(a, Action::Stop);
    assert_eq!(w.into_statistics().ok(), 1);
}

#[test]
fn an_end_of_the_stream_is_no_error() {
    let opts = options(Some(1));
    let rt = RealtimeStats::default();
    let mut w = Worker::new(ClientType::Compio, 0, 0, &opts);
    w.step(Event::Started, 0, &opts, &rt);
    w.step(Event::Connected, 0, &opts, &rt);
    w.step(Event::Written, 0, &opts, &rt);
    assert_eq!(w.step(Event::Eof, 0, &opts, &rt), Action::Stop);
    let s = w.into_statistics();
    assert_eq!(s.errors(), 0);
    assert_eq!(s.conn(), 1);
}

#[test]
fn the_status_comes_before_the_body() {
    let opts = options(Some(1));
    let rt = RealtimeStats::default();
    let mut w = Worker::new(ClientType::HyperH2, 0, 0, &opts);
    w.step(Event::Started, 0, &opts, &rt);
    assert_eq!(w.step(Event::Connected, 0, &opts, &rt), Action::Wait);
    assert!(matches!(w.step(Event::Ready, 0, &opts, &rt), Action::Send { .. }));
    assert_eq!(w.step(Event::Head(200, 3), 0, &opts, &rt), Action::ReadBody);
    assert_eq!(w.step(Event::BodyRead(7), 0, &opts, &rt), Action::Stop);
    assert_eq!(w.into_statistics().ok(), 1);
    assert!(profile(ClientType::HyperH2).head_first);
    assert!(!profile(ClientType::Hyper).head_first);
}

#[test]
fn statistics_count() {
    let rt = RealtimeStats::default();
    let mut s = Statistics::new(false);
    s.inc_ok(&rt);
    s.inc_conn();
    s.set_http_status(301, &rt);
    s.set_http_status(404, &rt);
    s.set_http_status(404, &rt);
    s.set_http_status(503, &rt);
    s.set_http_status(200, &rt);
    s.set_error("timed out", &rt);
    s.idle_time(5, 10);
    assert_eq!(s.ok(), 2);
    assert_eq!(s.conn(), 1);
    assert_eq!(s.status_3xx(), 1);
    assert_eq!(s.status_4xx(), 2);
    assert_eq!(s.status_5xx(), 1);
    assert_eq!(s.errors(), 1);
    assert_eq!(s.http_status().get(&404), Some(&2));
    assert_eq!(s.http_status().get(&200), None);
    assert_eq!(s.idle(), &vec![(5, 10)]);
    assert_eq!(rt.take(), (2, 4, 1));
    assert_eq!(rt.take(), (0, 0, 0));
}

#[test]
fn statistics_add_up_in_any_order() {
    let rt = RealtimeStats::default();
    let make = |code: u16, err: &str| {
        let mut s = Statistics::new(true);
        s.set_http_status(code, &rt);
        s.set_error(err, &rt);
        s.record_latency(code as u64);
        s
    };
    let left = make(404, "a").add(make(404, "b")).add(make(500, "a"));
    let right = make(500, "a").add(make(404, "b")).add(make(404, "a"));
    for s in [left, right] {
        assert_eq!(s.status_4xx(), 2);
        assert_eq!(s.status_5xx(), 1);
        assert_eq!(s.errors(), 3);
        let lat = s.latency.as_ref().unwrap().summary();
        assert_eq!(lat.min, 404);
        assert_eq!(lat.max, 500);
    }
    let alone = make(404, "a");
    let same = Statistics::default().add(make(404, "a"));
    assert_eq!(same.status_4xx(), alone.status_4xx());
    assert_eq!(same.errors(), alone.errors());
    assert!(same.latency.is_some());
}

#[test]
fn latencies_are_summed_up() {
    let mut s = Statistics::new(true);
    for micros in 1..=100u64 {
        s.record_latency(micros);
    }
    s.record_latency(u64::MAX);
    let lat = s.latency.as_ref().unwrap().clone().summary();
    assert_eq!(lat.min, 1);
    assert_eq!(lat.max, 100);
    assert_eq!(lat.p50, 50);
    assert_eq!(lat.p95, 95);
    assert_eq!(lat.p99, 99);
    assert_eq!(f64::from_bits(lat.mean), 50.5);
    let mut none = Statistics::new(false);
    none.record_latency(5);
    assert!(none.latency.is_none());
}

#[test]
fn latencies_keep_three_digits() {
    for (micros, least, greatest) in [
        (0u64, 0u64, 0u64),
        (2047, 2047, 2047),
        (2049, 2048, 2049),
        (5003, 5000, 5003),
        (1_000_001, 999_936, 1_000_447),
        (16_777_215, 16_769_024, 16_777_215),
    ] {
        let mut s = Statistics::new(true);
        s.record_latency(micros);
        let lat = s.latency.as_ref().unwrap().summary();
        assert_eq!((lat.min, lat.max), (least, greatest), "{micros}");
    }
    let mut s = Statistics::new(true);
    s.record_latency(16_777_216);
    let lat = s.latency.as_ref().unwrap().summary();
    assert_eq!((lat.min, lat.max), (0, 0));
}

#[test]
fn connections_per_second_ask_for_no_close() {
    let mut opts = options(Some(2));
    opts.cps = true;
    let rt = RealtimeStats::default();
    let mut w = Worker::new(ClientType::TokioUring, 1, 0, &opts);
    w.step(Event::Started, 0, &opts, &rt);
    let sent = w.step(Event::Connected, 0, &opts, &rt);
    assert!(matches!(sent, Action::Send { close: false, .. }));
    w.step(Event::Written, 0, &opts, &rt);
    let answer = b"HTTP/1.1 200 OK\r\nContent-Length: 0\r\n\r\n".to_vec();
    let then = w.step(Event::Received(answer, 1), 0, &opts, &rt);
    assert!(matches!(then, Action::Connect { generation: 1, .. }));
    opts.rpc = 1;
    let sent = w.step(Event::Connected, 0, &opts, &rt);
    assert!(matches!(sent, Action::Send { close: true, .. }));
}

fn chunked(pieces: &[&[u8]]) -> Vec<u8> {
    let mut body = Vec::new();
    for d in pieces {
        body.extend(format!("{:x}\r\n", d.len()).into_bytes());
        body.extend_from_slice(d);
        body.extend_from_slice(b"\r\n");
    }
    body.extend_from_slice(b"0\r\n\r\n");
    body
}

#[test]
fn encoded_bodies_end_at_their_blank_line() {
    let long = vec![b'a'; 300];
    for pieces in [
        vec![],
        vec![&b"x"[..]],
        vec![&b"\r\n\r\n"[..], &b"0\r\n\r\n"[..], &b"5;\n"[..]],
        vec![&long[..], &b"0123456789abcdef"[..], &b"z"[..]],
    ] {
        let body = chunked(&pieces);
        for rest in [&b""[..], &b"\r\n"[..], &b"HTTP/1.1 200 OK\r\n"[..]] {
            let mut all = body.clone();
            all.extend_from_slice(rest);
            assert_eq!(parse_chunked_body(&all), Some(body.len()));
        }
        for m in 0..body.len() {
            assert_eq!(parse_chunked_body(&body[..m]), None);
        }
    }
}
