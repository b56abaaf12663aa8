use rekker::address::{server_name_result, tls_domain, tls_server_name, trim_addr};
use rekker::binding::{inp_to_bytes, Input, Udp};
use rekker::duration::{
    duration_within_bound, duration_from_parse, parse_optional_duration, parse_timeout_arg, timeout_text, Timeout,
    MAX_DURATION_WEIGHT,
};
use rekker::error::PipeError;
use rekker::pipe::PipeKind;
use rekker::session::{session_step, RecvOutcome, SessionMode, SessionStep};
use rustls::pki_types::{InvalidDnsNameError, ServerName};

#[test]
fn trim_addr_joins_host_and_port() {
    assert_eq!(trim_addr("localhost 9000"), "localhost:9000");
    assert_eq!(trim_addr("  example.com \t 443 \n"), "example.com:443");
    assert_eq!(trim_addr("host:80"), "host:80");
    assert_eq!(trim_addr("a\u{a0}b"), "a:b");
    assert_eq!(trim_addr("   "), "");
}

#[test]
fn trim_addr_is_idempotent() {
    let once = trim_addr(" a  b   c ");
    assert_eq!(once, "a:b:c");
    assert_eq!(trim_addr(&once), once);
}

#[test]
fn tls_domain_is_host_part() {
    assert_eq!(tls_domain("example.com 443"), "example.com");
    assert_eq!(tls_domain("example.com:443"), "example.com");
    assert_eq!(tls_domain("example.com"), "example.com");
}

#[test]
fn tls_server_name_accepts_dns_and_ip() {
    assert!(tls_server_name("example.com:443").is_ok());
    assert!(tls_server_name("127.0.0.1 8443").is_ok());
}

#[test]
fn tls_server_name_refuses_bad_host() {
    assert!(matches!(tls_server_name("bad..name:443"), Err(PipeError::DomainParse)));
    assert!(matches!(tls_server_name(":443"), Err(PipeError::DomainParse)));
}

#[test]
fn server_name_result_maps_error() {
    assert!(matches!(server_name_result(Err(InvalidDnsNameError)), Err(PipeError::DomainParse)));
}

#[test]
fn parse_optional_duration_cases() {
    assert_eq!(parse_optional_duration(None), Ok(None));
    assert_eq!(parse_optional_duration(Some("0")), Ok(Some(Timeout { secs: 0, nanos: 0 })));
    assert_eq!(parse_optional_duration(Some("2s")), Ok(Some(Timeout { secs: 2, nanos: 0 })));
    assert_eq!(
        parse_optional_duration(Some("32ms")),
        Ok(Some(Timeout { secs: 0, nanos: 32_000_000 }))
    );
    assert_eq!(
        parse_optional_duration(Some("1s 500ms")),
        Ok(Some(Timeout { secs: 1, nanos: 500_000_000 }))
    );
    assert!(matches!(parse_optional_duration(Some("soon")), Err(PipeError::Duration(_))));
}

#[test]
fn duration_from_parse_maps_both_ways() {
    assert_eq!(
        duration_from_parse(Ok(Timeout { secs: 3, nanos: 7 })),
        Ok(Some(Timeout { secs: 3, nanos: 7 }))
    );
    assert_eq!(
        duration_from_parse(Err("bad".to_string())),
        Err(PipeError::Duration("bad".to_string()))
    );
}

#[test]
fn timeout_text_uses_debug_form() {
    assert_eq!(timeout_text(None), None);
    assert_eq!(timeout_text(Some(Timeout { secs: 1, nanos: 500_000_000 })), Some("1.5s".to_string()));
    assert_eq!(timeout_text(Some(Timeout { secs: 0, nanos: 250_000_000 })), Some("250ms".to_string()));
}

#[test]
fn inp_to_bytes_cases() {
    assert_eq!(inp_to_bytes(Input::Text("hé".to_string())), Ok("hé".as_bytes().to_vec()));
    assert_eq!(inp_to_bytes(Input::Bytes(vec![0, 255])), Ok(vec![0, 255]));
    assert_eq!(inp_to_bytes(Input::Other), Err(PipeError::InputType));
}

#[test]
fn udp_connect_gives_fresh_pipe_and_target() {
    let (udp, target) = Udp::connect(" 10.0.0.1  53 ");
    assert_eq!(target, "10.0.0.1:53");
    assert_eq!(udp.pipe.kind(), PipeKind::Udp);
    assert_eq!(udp.pipe.buffer_len(), 0);
    assert!(!udp.pipe.is_logging());
}

#[test]
fn apply_drop_removes_delimiter() {
    assert_eq!(Udp::apply_drop(b"line\n".to_vec(), Some(true)), b"line".to_vec());
    assert_eq!(Udp::apply_drop(b"line\n".to_vec(), Some(false)), b"line\n".to_vec());
    assert_eq!(Udp::apply_drop(b"line\n".to_vec(), None), b"line\n".to_vec());
}

#[test]
fn session_step_cases() {
    let i = SessionMode::Interactive;
    let d = SessionMode::Debug;
    assert_eq!(session_step(i, RecvOutcome::Received(5)), SessionStep::Show);
    assert_eq!(session_step(d, RecvOutcome::Received(5)), SessionStep::Prompt);
    assert_eq!(session_step(i, RecvOutcome::Received(0)), SessionStep::Broken);
    assert_eq!(session_step(d, RecvOutcome::Received(0)), SessionStep::Broken);
    assert_eq!(session_step(i, RecvOutcome::WouldBlock), SessionStep::Idle);
    assert_eq!(session_step(d, RecvOutcome::Failed), SessionStep::Broken);
    assert!(d.prompts());
    assert!(!i.prompts());
}

#[test]
fn tls_server_name_is_the_host_parse() {
    let expected = ServerName::try_from("example.com".to_string()).unwrap();
    assert_eq!(tls_server_name(" example.com  443 ").unwrap(), expected);
    let ip = ServerName::try_from("127.0.0.1".to_string()).unwrap();
    assert_eq!(tls_server_name("127.0.0.1:8443").unwrap(), ip);
    assert_ne!(tls_server_name("example.com:443").unwrap(), ServerName::try_from("evil.example".to_string()).unwrap());
}

#[test]
fn duration_within_bound_cases() {
    assert!(duration_within_bound("1h 30min 15s"));
    assert!(duration_within_bound("µs"));
    assert!(duration_within_bound("300000000000ns"));
    assert!(!duration_within_bound("600000000000ns"));
    assert!(!duration_within_bound("18446744073709551615s 1000ms"));
}

#[test]
fn parse_timeout_arg_refuses_overlong_texts() {
    assert_eq!(MAX_DURATION_WEIGHT, 584_542_046_090);
    assert_eq!(parse_timeout_arg(Some("18446744073709551615s 1000ms")), Err(PipeError::DurationTooLong));
    assert_eq!(parse_timeout_arg(None), Ok(None));
    assert_eq!(
        parse_timeout_arg(Some("99999999999s")),
        Ok(Some(Timeout { secs: 99_999_999_999, nanos: 0 }))
    );
    assert_eq!(
        parse_timeout_arg(Some("300000000000ns")),
        Ok(Some(Timeout { secs: 300, nanos: 0 }))
    );
    assert_eq!(parse_timeout_arg(Some("1.5s")), Ok(Some(Timeout { secs: 1, nanos: 500_000_000 })));
    assert!(matches!(parse_timeout_arg(Some("later")), Err(PipeError::Duration(_))));
}
