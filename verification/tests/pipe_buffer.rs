use rekker::pipe::{sendline_payload, Pipe, PipeKind, Scan, SendPlan, READ_CHUNK, UDP_BIND_ADDR};
use rekker::error::PipeError;

fn pipe_with(kind: PipeKind, data: &[u8]) -> Pipe {
    let mut p = Pipe::new(kind);
    p.push_received(data);
    p
}

#[test]
fn new_pipe_is_empty_and_quiet() {
    let p = Pipe::new(PipeKind::Tls);
    assert_eq!(p.buffer_len(), 0);
    assert!(!p.is_logging());
    assert_eq!(p.kind(), PipeKind::Tls);
}

#[test]
fn log_toggles() {
    let mut p = Pipe::new(PipeKind::Tcp);
    p.log(true);
    assert!(p.is_logging());
    p.log(false);
    assert!(!p.is_logging());
}

#[test]
fn push_received_appends_and_reports_echo() {
    let mut p = Pipe::new(PipeKind::Tcp);
    assert!(!p.push_received(b"abc"));
    p.log(true);
    assert!(p.push_received(b"de"));
    assert!(!p.push_received(b""));
    assert_eq!(p.buffer_len(), 5);
    assert_eq!(p.drain_n(5), b"abcde".to_vec());
}

#[test]
fn drain_n_takes_prefix_in_order() {
    let mut p = pipe_with(PipeKind::Tcp, b"hello world");
    assert_eq!(p.drain_n(0), Vec::<u8>::new());
    assert_eq!(p.drain_n(5), b"hello".to_vec());
    assert_eq!(p.buffer_len(), 6);
    assert_eq!(p.drain_n(6), b" world".to_vec());
    assert_eq!(p.buffer_len(), 0);
}

#[test]
fn recv_hands_out_buffered_bytes_first() {
    let mut p = pipe_with(PipeKind::Tcp, b"abcdef");
    assert_eq!(p.recv(4, false), Some(b"abcd".to_vec()));
    assert_eq!(p.recv(4, false), Some(b"ef".to_vec()));
    assert_eq!(p.recv(4, false), None);
}

#[test]
fn recv_after_read_hands_out_whatever_came() {
    let mut p = Pipe::new(PipeKind::Udp);
    assert_eq!(p.recv(3, false), None);
    p.push_received(b"xy");
    assert_eq!(p.recv(3, true), Some(b"xy".to_vec()));
    // end of stream: the read brought nothing
    assert_eq!(p.recv(3, true), Some(Vec::new()));
}

#[test]
fn recvn_waits_for_exactly_n() {
    let mut p = pipe_with(PipeKind::Tcp, b"ab");
    assert_eq!(p.recvn(3), None);
    p.push_received(b"cd");
    assert_eq!(p.recvn(3), Some(b"abc".to_vec()));
    assert_eq!(p.buffer_len(), 1);
    assert_eq!(p.recvn(0), Some(Vec::new()));
}

#[test]
fn recvline_returns_through_first_newline() {
    let mut p = pipe_with(PipeKind::Tcp, b"first\nsecond\n");
    match p.recvline(0) {
        Scan::Found(line) => assert_eq!(line, b"first\n".to_vec()),
        Scan::Pending(_) => panic!("expected a line"),
    }
    match p.recvline(0) {
        Scan::Found(line) => assert_eq!(line, b"second\n".to_vec()),
        Scan::Pending(_) => panic!("expected a line"),
    }
}

#[test]
fn recvline_resumes_after_more_data() {
    let mut p = pipe_with(PipeKind::Tcp, b"par");
    let next = match p.recvline(0) {
        Scan::Pending(n) => n,
        Scan::Found(_) => panic!("no newline yet"),
    };
    assert_eq!(next, 3);
    p.push_received(b"tial\nrest");
    match p.recvline(next) {
        Scan::Found(line) => assert_eq!(line, b"partial\n".to_vec()),
        Scan::Pending(_) => panic!("expected a line"),
    }
    assert_eq!(p.buffer_len(), 4);
}

#[test]
fn recvuntil_empty_suffix_is_empty() {
    let mut p = pipe_with(PipeKind::Tcp, b"abc");
    match p.recvuntil(b"", 0) {
        Scan::Found(out) => assert!(out.is_empty()),
        Scan::Pending(_) => panic!("empty suffix is found at once"),
    }
    assert_eq!(p.buffer_len(), 3);
}

#[test]
fn recvuntil_finds_shortest_prefix() {
    let mut p = pipe_with(PipeKind::Tcp, b"xxabyyabzz");
    match p.recvuntil(b"ab", 0) {
        Scan::Found(out) => assert_eq!(out, b"xxab".to_vec()),
        Scan::Pending(_) => panic!("expected a match"),
    }
    match p.recvuntil(b"ab", 0) {
        Scan::Found(out) => assert_eq!(out, b"yyab".to_vec()),
        Scan::Pending(_) => panic!("expected a match"),
    }
    match p.recvuntil(b"ab", 0) {
        Scan::Pending(n) => assert_eq!(n, 2),
        Scan::Found(_) => panic!("no match left"),
    }
}

#[test]
fn recvuntil_matches_across_reads() {
    let mut p = pipe_with(PipeKind::Tcp, b"hello a");
    let next = match p.recvuntil(b"abc", 0) {
        Scan::Pending(n) => n,
        Scan::Found(_) => panic!("not complete yet"),
    };
    assert_eq!(next, 7);
    p.push_received(b"bc tail");
    match p.recvuntil(b"abc", next) {
        Scan::Found(out) => assert_eq!(out, b"hello abc".to_vec()),
        Scan::Pending(_) => panic!("expected a match"),
    }
    assert_eq!(p.drain_n(p.buffer_len()), b" tail".to_vec());
}

#[test]
fn recvall_drains_at_end_of_stream() {
    let mut p = pipe_with(PipeKind::Tcp, b"everything");
    assert_eq!(p.recvall(10), None);
    assert_eq!(p.recvall(0), Some(b"everything".to_vec()));
    assert_eq!(p.buffer_len(), 0);
}

#[test]
fn delivery_keeps_stream_order() {
    // what the receives hand out, concatenated, is what arrived
    let mut p = Pipe::new(PipeKind::Tcp);
    let mut out = Vec::new();
    p.push_received(b"ab\ncd");
    if let Scan::Found(l) = p.recvline(0) {
        out.extend(l);
    }
    p.push_received(b"efg");
    out.extend(p.recvn(2).unwrap());
    out.extend(p.recv(10, false).unwrap());
    assert_eq!(out, b"ab\ncdefg".to_vec());
}

#[test]
fn sendline_payload_appends_newline() {
    assert_eq!(sendline_payload(b"hi"), b"hi\n".to_vec());
    assert_eq!(sendline_payload(b""), b"\n".to_vec());
}

#[test]
fn send_plan_skips_empty_messages() {
    let mut p = Pipe::new(PipeKind::Tcp);
    assert_eq!(p.send(b""), SendPlan::Skip);
    assert_eq!(p.send(b"x"), SendPlan::Write { log: false });
    p.log(true);
    assert_eq!(p.send(b"x"), SendPlan::Write { log: true });
}

#[test]
fn nagle_and_close_refused_on_udp() {
    let udp = Pipe::new(PipeKind::Udp);
    assert_eq!(udp.nagle_check(), Err(PipeError::NagleOnUdp));
    assert_eq!(udp.close_check(), Err(PipeError::ShutdownOnUdp));
    let tcp = Pipe::new(PipeKind::Tcp);
    assert_eq!(tcp.nagle_check(), Ok(()));
    assert_eq!(tcp.close_check(), Ok(()));
    let tls = Pipe::new(PipeKind::Tls);
    assert_eq!(tls.nagle_check(), Ok(()));
    assert_eq!(tls.close_check(), Ok(()));
}

#[test]
fn transport_constants() {
    assert_eq!(READ_CHUNK, 1024);
    assert_eq!(UDP_BIND_ADDR, "0.0.0.0:0");
}

#[test]
fn force_logging_saves_setting() {
    let mut p = Pipe::new(PipeKind::Tcp);
    assert!(!p.force_logging());
    assert!(p.is_logging());
    assert!(p.force_logging());
    p.log(false);
    assert!(!p.is_logging());
}
