use proxy_tunnel::endpoint::{ProxyEndpoint, ProxyType, Purpose, RemoteEndpoint};
use proxy_tunnel::socks5::{
    fault_message, parse_socks5_connect_header, refusal_message, socks5_authenticate,
    socks5_connect, socks5_greeting, socks5_request, Refusal, Socks5Phase,
};
use proxy_tunnel::wire::{Action, Event};

#[test]
fn parse_socks5_header_success() {
    let result = parse_socks5_connect_header(&[0x05, 0x00, 0x00, 0x01]);
    assert!(result.is_ok(), "0x00 reply should be success");
}

#[test]
fn parse_socks5_header_rejected() {
    let result = parse_socks5_connect_header(&[0x05, 0x03, 0x00, 0x01]);
    assert!(result.is_err(), "code 0x03 should be error");
    assert!(result.unwrap_err().contains("rejected"), "error should mention rejected");
}

#[test]
fn parse_socks5_header_bad_version() {
    let result = parse_socks5_connect_header(&[0x04, 0x00, 0x00, 0x01]);
    assert!(result.is_err(), "version 4 should be error");
    assert!(result.unwrap_err().contains("version"), "error should mention version");
}

#[test]
fn header_messages_are_exact() {
    assert_eq!(
        parse_socks5_connect_header(&[5, 3, 0, 1]),
        Err("SOCKS proxy connect rejected (code 3)".to_string())
    );
    assert_eq!(
        parse_socks5_connect_header(&[4, 3, 0, 1]),
        Err("Invalid SOCKS proxy version: 4".to_string())
    );
}

#[test]
fn messages_are_exact() {
    assert_eq!(socks5_greeting(false), vec![5, 1, 0]);
    assert_eq!(socks5_greeting(true), vec![5, 2, 0, 2]);
    assert_eq!(
        socks5_authenticate("user", "pw"),
        Some(vec![1, 4, b'u', b's', b'e', b'r', 2, b'p', b'w'])
    );
    assert_eq!(
        socks5_request("db", 5432),
        Some(vec![5, 1, 0, 3, 2, b'd', b'b', 0x15, 0x38])
    );
}

#[test]
fn lengths_are_counted_in_bytes() {
    let fits = "x".repeat(255);
    let too_long = "x".repeat(256);
    let wide = "\u{e9}".repeat(128);
    assert!(socks5_request(&fits, 1).is_some());
    assert!(socks5_request(&too_long, 1).is_none());
    assert!(socks5_request(&wide, 1).is_none());
    assert!(socks5_authenticate(&fits, &fits).is_some());
    assert!(socks5_authenticate(&too_long, "").is_none());
    assert!(socks5_authenticate("", &wide).is_none());
}

struct Outcome {
    result: Result<(), String>,
    sent: Vec<Vec<u8>>,
    read: usize,
}

fn converse(
    purpose: Purpose,
    proxy: &ProxyEndpoint,
    remote: &RemoteEndpoint,
    stream: &[u8],
) -> Outcome {
    let mut phase = Socks5Phase::Start;
    let mut event = Event::Started;
    let mut sent = Vec::new();
    let mut read = 0;
    loop {
        assert!(event.answers(phase.awaits()));
        let (next, action) = socks5_connect(phase, purpose, proxy, remote, event);
        phase = next;
        event = match action {
            Action::Send(bytes) => {
                sent.push(bytes);
                Event::Sent
            }
            Action::Receive(count) if read + count <= stream.len() => {
                read += count;
                Event::Received(stream[read - count..read].to_vec())
            }
            Action::Receive(_) => Event::Failed("end".to_string()),
            Action::Finish(result) => return Outcome { result, sent, read },
            other => panic!("{other:?}"),
        };
    }
}

fn endpoints(username: &str, password: &str, host: &str) -> (ProxyEndpoint, RemoteEndpoint) {
    (
        ProxyEndpoint::new(ProxyType::Socks5, "proxy", 1080, username, password),
        RemoteEndpoint::new(host, 5432),
    )
}

#[test]
fn conversation_without_credentials() {
    let (proxy, remote) = endpoints("", "", "db");
    let stream = [5, 0, 5, 0, 0, 1, 1, 2, 3, 4, 0, 80, 99, 98];
    let outcome = converse(Purpose::Tunnel, &proxy, &remote, &stream);
    assert_eq!(outcome.result, Ok(()));
    assert_eq!(
        outcome.sent,
        vec![vec![5, 1, 0], vec![5, 1, 0, 3, 2, b'd', b'b', 0x15, 0x38]]
    );
    assert_eq!(outcome.read, 12);
}

#[test]
fn conversation_with_credentials() {
    let (proxy, remote) = endpoints("u", "p", "db");
    let stream = [5, 2, 1, 0, 5, 0, 0, 3, 2, 7, 7, 0, 80];
    let outcome = converse(Purpose::Probe, &proxy, &remote, &stream);
    assert_eq!(outcome.result, Ok(()));
    assert_eq!(
        outcome.sent,
        vec![
            vec![5, 2, 0, 2],
            vec![1, 1, b'u', 1, b'p'],
            vec![5, 1, 0, 3, 2, b'd', b'b', 0x15, 0x38]
        ]
    );
    assert_eq!(outcome.read, 13);
}

#[test]
fn conversation_with_an_ipv6_bound_address() {
    let (proxy, remote) = endpoints("", "", "db");
    let mut stream = vec![5, 0, 5, 0, 0, 4];
    stream.extend_from_slice(&[0; 18]);
    let outcome = converse(Purpose::Tunnel, &proxy, &remote, &stream);
    assert_eq!(outcome.result, Ok(()));
    assert_eq!(outcome.read, 24);
    let outcome = converse(Purpose::Tunnel, &proxy, &remote, &stream[..23]);
    assert_eq!(outcome.result, Err("Failed to read SOCKS bound address: end".to_string()));
}

#[test]
fn refusals_end_the_conversation() {
    let long = "x".repeat(256);
    let cases: [(&[u8], &str, &str, &str, &str, usize); 9] = [
        (&[4, 0], "", "db", "Invalid SOCKS proxy version", "Invalid SOCKS proxy version: 4", 1),
        (
            &[5, 255],
            "",
            "db",
            "SOCKS proxy rejected supported authentication methods",
            "SOCKS proxy rejected all supported auth methods",
            1,
        ),
        (
            &[5, 1],
            "",
            "db",
            "SOCKS proxy selected unsupported auth method: 1",
            "SOCKS proxy selected unsupported auth method: 1",
            1,
        ),
        (
            &[5, 2],
            &long,
            "db",
            "SOCKS username or password is too long",
            "SOCKS username or password is too long",
            1,
        ),
        (
            &[5, 2, 1, 1],
            "u",
            "db",
            "SOCKS proxy authentication failed",
            "SOCKS proxy authentication failed",
            2,
        ),
        (
            &[5, 0],
            "",
            &long,
            "Remote host is too long for SOCKS5 domain address",
            "Proxy host too long for SOCKS5 domain address",
            1,
        ),
        (
            &[5, 0, 6, 0, 0, 1],
            "",
            "db",
            "Invalid SOCKS connect response version",
            "Invalid SOCKS proxy version: 6",
            2,
        ),
        (
            &[5, 0, 5, 5, 0, 1],
            "",
            "db",
            "SOCKS proxy connect failed with code 5",
            "SOCKS proxy connect rejected (code 5)",
            2,
        ),
        (
            &[5, 0, 5, 0, 0, 9],
            "",
            "db",
            "Unsupported SOCKS bound address type: 9",
            "Unsupported SOCKS bound address type: 9",
            2,
        ),
    ];
    for (stream, username, host, tunnel, probe, sent) in cases {
        let (proxy, remote) = endpoints(username, "", host);
        let outcome = converse(Purpose::Tunnel, &proxy, &remote, stream);
        assert_eq!(outcome.result, Err(tunnel.to_string()));
        assert_eq!(outcome.sent.len(), sent);
        let outcome = converse(Purpose::Probe, &proxy, &remote, stream);
        assert_eq!(outcome.result, Err(probe.to_string()));
        assert_eq!(outcome.sent.len(), sent);
    }
}

#[test]
fn faults_name_their_phase_in_a_tunnel() {
    let cases = [
        (Socks5Phase::Greeting, "Failed to send SOCKS greeting: x"),
        (Socks5Phase::Method, "Failed to read SOCKS greeting: x"),
        (Socks5Phase::Credentials, "Failed to send SOCKS authentication: x"),
        (Socks5Phase::Verdict, "Failed to read SOCKS authentication response: x"),
        (Socks5Phase::Request, "Failed to send SOCKS connect request: x"),
        (Socks5Phase::Reply, "Failed to read SOCKS connect response: x"),
        (Socks5Phase::AddressLength, "Failed to read SOCKS bound address length: x"),
        (Socks5Phase::Address(6), "Failed to read SOCKS bound address: x"),
    ];
    for (phase, message) in cases {
        assert_eq!(fault_message(Purpose::Tunnel, phase, "x"), message);
        assert_eq!(fault_message(Purpose::Probe, phase, "x"), "x");
    }
    assert_eq!(
        refusal_message(Purpose::Probe, Refusal::Rejected(200)),
        "SOCKS proxy connect rejected (code 200)"
    );
}

#[test]
fn different_targets_give_different_requests() {
    assert_ne!(socks5_request("db", 1), socks5_request("db", 256));
    assert_ne!(socks5_request("a", 1), socks5_request("b", 1));
    assert_ne!(socks5_authenticate("ab", "c"), socks5_authenticate("a", "bc"));
}
