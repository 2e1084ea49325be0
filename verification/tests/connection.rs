use proxy_tunnel::connection::{
    client_connected, connect_via_proxy, proxy_forward_loop, Accepting, Connection, Forwarding,
    Relaying, CONNECT_TIMEOUT_SECS,
};
use proxy_tunnel::endpoint::{ProxyEndpoint, ProxyType, RemoteEndpoint};
use proxy_tunnel::http::HttpExchange;
use proxy_tunnel::probe::{answers_probe, probe_target_text, strip_brackets, test_proxy_endpoint};
use proxy_tunnel::retry::{
    read_byte_with_retry, read_exact_with_retry, write_all_retry, Attempt, ExactRead, FaultKind,
    Read, Retry,
};
use proxy_tunnel::socks5::Socks5Phase;
use proxy_tunnel::wire::{Action, Awaiting, Event};

/// Connects through a proxy that answers with `stream`. Gives the result and how
/// many bytes of `stream` were read.
fn drive(
    proxy: &ProxyEndpoint,
    remote: &RemoteEndpoint,
    stream: &[u8],
) -> (Result<(), String>, usize) {
    let mut state = Connection::Start;
    let mut event = Event::Started;
    let mut read = 0;
    loop {
        assert!(event.answers(state.awaits()));
        let (next, action) = connect_via_proxy(state, proxy, remote, event);
        state = next;
        event = match action {
            Action::Connect { host, port } => {
                assert_eq!((host.as_str(), port), (proxy.host.as_str(), proxy.port));
                Event::Connected
            }
            Action::Send(_) => Event::Sent,
            Action::Receive(count) => {
                read += count;
                Event::Received(stream[read - count..read].to_vec())
            }
            Action::ReceiveByte => {
                read += 1;
                Event::Received(vec![stream[read - 1]])
            }
            Action::Finish(result) => return (result, read),
        };
    }
}

#[test]
fn tunnel_through_either_proxy() {
    let remote = RemoteEndpoint::new("db", 5432);
    let http = ProxyEndpoint::new(ProxyType::Http, "proxy", 8080, "", "");
    assert_eq!(drive(&http, &remote, b"HTTP/1.1 200 OK\r\n\r\nmore"), (Ok(()), 19));
    assert_eq!(
        drive(&http, &remote, b"HTTP/1.1 403 Forbidden\r\n\r\n").0,
        Err("HTTP proxy CONNECT failed: HTTP/1.1 403 Forbidden".to_string())
    );
    let socks = ProxyEndpoint::new(ProxyType::Socks5, "proxy", 1080, "", "");
    assert_eq!(
        drive(&socks, &remote, &[5, 0, 5, 0, 0, 1, 0, 0, 0, 0, 0, 0, 77, 78]),
        (Ok(()), 12)
    );
    assert_eq!(
        drive(&socks, &remote, &[5, 0, 5, 1, 0, 1]).0,
        Err("SOCKS proxy connect failed with code 1".to_string())
    );
}

#[test]
fn tunnel_reports_a_proxy_out_of_reach() {
    let remote = RemoteEndpoint::new("db", 5432);
    let proxy = ProxyEndpoint::new(ProxyType::Http, "proxy", 8080, "", "");
    let (state, action) =
        connect_via_proxy(Connection::Connecting, &proxy, &remote, Event::TimedOut);
    assert_eq!(state, Connection::Closed);
    assert_eq!(state.awaits(), Awaiting::Nothing);
    assert_eq!(action, Action::Finish(Err("Proxy connection timed out".to_string())));
    let (_, action) = connect_via_proxy(
        Connection::Connecting,
        &proxy,
        &remote,
        Event::Failed("refused".to_string()),
    );
    assert_eq!(action, Action::Finish(Err("Failed to connect proxy: refused".to_string())));
}

#[test]
fn forwarding_serves_until_the_listener_fails() {
    let remote = RemoteEndpoint::new("db", 5432);
    let proxy = ProxyEndpoint::new(ProxyType::Http, "proxy", 8080, "u", "p");
    match proxy_forward_loop(Accepting::Accepted, &proxy, &remote) {
        Forwarding::Serve { proxy, remote } => {
            assert_eq!((proxy.host.as_str(), proxy.port), ("proxy", 8080));
            assert_eq!((proxy.username.as_str(), proxy.password.as_str()), ("u", "p"));
            assert_eq!((remote.host.as_str(), remote.port), ("db", 5432));
        }
        Forwarding::Stop => panic!("a client was accepted"),
    }
    assert!(matches!(
        proxy_forward_loop(Accepting::Failed, &proxy, &remote),
        Forwarding::Stop
    ));
}

fn probe(proxy_type: ProxyType, host: &str, stream: &[u8]) -> (Result<String, String>, Vec<u8>) {
    let mut state = Connection::Start;
    let mut event = Event::Started;
    let mut sent = Vec::new();
    let mut read = 0;
    loop {
        assert!(answers_probe(&state, &event));
        let (next, action) =
            test_proxy_endpoint(state, proxy_type, host, 1080, "", "", "1.5ms", event);
        state = next;
        event = match action {
            Action::Connect { port, .. } => {
                assert_eq!(port, 1080);
                Event::Connected
            }
            Action::Send(bytes) => {
                sent.extend_from_slice(&bytes);
                Event::Sent
            }
            Action::Receive(count) => {
                read += count;
                Event::Received(stream[read - count..read].to_vec())
            }
            Action::ReceiveByte if read < stream.len() => {
                read += 1;
                Event::Received(vec![stream[read - 1]])
            }
            Action::ReceiveByte => Event::Received(vec![]),
            Action::Finish(result) => return (result, sent),
        };
    }
}

#[test]
fn probe_of_an_http_proxy() {
    let (result, sent) = probe(ProxyType::Http, "[fe80::1%en0]", b"HTTP/1.0 204 x\r\n\r\n");
    assert_eq!(result, Ok("HTTP CONNECT proxy connection successful (204)".to_string()));
    assert_eq!(
        sent,
        b"CONNECT [fe80::1]:1080 HTTP/1.1\r\nHost: [fe80::1]:1080\r\n\
          User-Agent: Mozilla/5.0\r\nProxy-Connection: Keep-Alive\r\n\r\n"
            .to_vec()
    );
    let (result, _) = probe(ProxyType::Http, "proxy", b"HTTP/1.1 502 Bad Gateway\r\n\r\n");
    assert_eq!(
        result,
        Err("Proxy handshake failed (1.5ms): HTTP proxy CONNECT failed: HTTP 502".to_string())
    );
}

#[test]
fn probe_of_a_socks5_proxy() {
    let stream = [5, 0, 5, 0, 0, 1, 0, 0, 0, 0, 0, 0];
    let (result, sent) = probe(ProxyType::Socks5, "[fe80::1%en0]", &stream);
    assert_eq!(result, Ok("SOCKS5 proxy connection successful".to_string()));
    let mut expected = vec![5, 1, 0, 5, 1, 0, 3, 11];
    expected.extend_from_slice(b"fe80::1%en0");
    expected.extend_from_slice(&[4, 56]);
    assert_eq!(sent, expected);
    let (result, _) = probe(ProxyType::Socks5, "proxy", &[5, 255]);
    assert_eq!(
        result,
        Err("Proxy handshake failed (1.5ms): SOCKS proxy rejected all supported auth methods"
            .to_string())
    );
}

#[test]
fn probe_out_of_time_or_out_of_reach() {
    assert_eq!(CONNECT_TIMEOUT_SECS, 10);
    let step = |state, event| {
        test_proxy_endpoint(state, ProxyType::Http, "proxy", 8080, "", "", "2s", event).1
    };
    assert_eq!(
        step(Connection::Connecting, Event::TimedOut),
        Action::Finish(Err("Proxy connection timed out (10s)".to_string()))
    );
    assert_eq!(
        step(Connection::Connecting, Event::Failed("refused".to_string())),
        Action::Finish(Err("Failed to connect to proxy: refused".to_string()))
    );
    assert_eq!(
        step(Connection::Http(HttpExchange::Request), Event::TimedOut),
        Action::Finish(Err("Proxy handshake timed out (10s)".to_string()))
    );
    assert_eq!(
        step(Connection::Socks5(Socks5Phase::Reply), Event::TimedOut),
        Action::Finish(Err("Proxy handshake timed out (10s)".to_string()))
    );
    assert_eq!(
        step(
            Connection::Http(HttpExchange::Request),
            Event::Failed("write failed: broken".to_string())
        ),
        Action::Finish(Err("Proxy handshake failed (2s): write failed: broken".to_string()))
    );
}

#[test]
fn probe_targets() {
    assert_eq!(strip_brackets("[fe80::1]"), "fe80::1");
    assert_eq!(strip_brackets("fe80::1"), "fe80::1");
    assert_eq!(strip_brackets("[[x]]"), "x");
    assert_eq!(strip_brackets("[]"), "");
    assert_eq!(strip_brackets("a]["), "a][");
    assert_eq!(probe_target_text("proxy.example", 3128), "proxy.example:3128");
    assert_eq!(probe_target_text("fe80::1%en0", 3128), "[fe80::1]:3128");
    assert_eq!(probe_target_text("host%zone", 1), "host:1");
    assert_eq!(probe_target_text("%a:b", 1), ":1");
}

#[test]
fn transient_faults_are_waited_out() {
    let faulted = |kind| Attempt::Faulted { kind, reason: "why".to_string() };
    assert_eq!(write_all_retry(faulted(FaultKind::NotConnected)), Retry::Wait);
    assert_eq!(write_all_retry(faulted(FaultKind::WouldBlock)), Retry::Wait);
    assert_eq!(
        write_all_retry(faulted(FaultKind::Other)),
        Retry::Finish(Err("write failed: why".to_string()))
    );
    assert_eq!(write_all_retry(Attempt::Ready), Retry::Again);
    assert_eq!(write_all_retry(Attempt::Done(())), Retry::Finish(Ok(())));
    assert_eq!(
        write_all_retry(Attempt::WaitFailed("why".to_string())),
        Retry::Finish(Err("writable wait failed: why".to_string()))
    );
}

#[test]
fn reads_are_retried_alike() {
    let faulted = |kind| Attempt::Faulted { kind, reason: "why".to_string() };
    assert_eq!(read_byte_with_retry(faulted(FaultKind::NotConnected)), Retry::Wait);
    assert_eq!(read_byte_with_retry(faulted(FaultKind::WouldBlock)), Retry::Wait);
    assert_eq!(
        read_byte_with_retry(faulted(FaultKind::Other)),
        Retry::Finish(Err("read failed: why".to_string()))
    );
    assert_eq!(read_byte_with_retry(Attempt::Ready), Retry::Again);
    assert_eq!(read_byte_with_retry(Attempt::Done(vec![7])), Retry::Finish(Ok(vec![7])));
    assert_eq!(
        read_byte_with_retry(Attempt::WaitFailed("why".to_string())),
        Retry::Finish(Err("readable wait failed: why".to_string()))
    );
}

#[test]
fn exact_read_gathers_pieces() {
    assert_eq!(
        read_exact_with_retry(vec![], 0, Read::Started),
        ExactRead::Finish(Ok(vec![]))
    );
    assert_eq!(
        read_exact_with_retry(vec![], 3, Read::Started),
        ExactRead::More { gathered: vec![], at_most: 3 }
    );
    assert_eq!(
        read_exact_with_retry(vec![], 3, Read::Bytes(vec![1, 2])),
        ExactRead::More { gathered: vec![1, 2], at_most: 1 }
    );
    assert_eq!(
        read_exact_with_retry(vec![1, 2], 3, Read::Bytes(vec![3])),
        ExactRead::Finish(Ok(vec![1, 2, 3]))
    );
    assert_eq!(
        read_exact_with_retry(vec![1], 3, Read::Bytes(vec![])),
        ExactRead::Finish(Err("connection closed".to_string()))
    );
    assert_eq!(
        read_exact_with_retry(vec![1], 3, Read::Failed("read failed: x".to_string())),
        ExactRead::Finish(Err("read failed: x".to_string()))
    );
}

#[test]
fn a_probe_may_run_out_of_time_while_it_waits() {
    let late = Event::TimedOut;
    assert!(!answers_probe(&Connection::Start, &late));
    assert!(answers_probe(&Connection::Connecting, &late));
    assert!(answers_probe(&Connection::Http(HttpExchange::Request), &late));
    assert!(!answers_probe(&Connection::Http(HttpExchange::Closed), &late));
    assert!(answers_probe(&Connection::Socks5(Socks5Phase::Method), &late));
    assert!(!answers_probe(&Connection::Socks5(Socks5Phase::Closed), &late));
    assert!(!answers_probe(&Connection::Closed, &late));
    assert!(!answers_probe(&Connection::Http(HttpExchange::Request), &Event::Connected));
    assert!(answers_probe(&Connection::Http(HttpExchange::Request), &Event::Sent));
}

#[test]
fn a_client_is_relayed_when_its_connection_stands() {
    assert_eq!(client_connected(&Ok(())), Relaying::Relay);
    assert_eq!(client_connected(&Err("refused".to_string())), Relaying::Drop);
}
