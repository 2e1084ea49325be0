use proxy_tunnel::endpoint::{ProxyEndpoint, ProxyType, Purpose, RemoteEndpoint};
use proxy_tunnel::http::{
    accept_connect_response, advance_exchange, authority_text, authorized_request,
    connect_request, fits_in_token, http_connect, judge_for_probe, judge_for_tunnel,
    parse_http_connect_response, read_http_response, HttpExchange, RESPONSE_LIMIT,
};
use proxy_tunnel::wire::{Action, Awaiting, Event};

#[test]
fn parse_http_success_http11() {
    let resp = parse_http_connect_response(b"HTTP/1.1 200 Connection Established\r\n\r\n");
    assert!(resp.is_ok(), "HTTP/1.1 200 should be success, got: {resp:?}");
    assert!(resp.unwrap().contains("200"));
}

#[test]
fn parse_http_success_http10() {
    let resp = parse_http_connect_response(b"HTTP/1.0 200 OK\r\n\r\n");
    assert!(resp.is_ok(), "HTTP/1.0 200 should be success, got: {resp:?}");
}

#[test]
fn parse_http_error_status() {
    let resp = parse_http_connect_response(b"HTTP/1.1 502 Bad Gateway\r\n\r\n");
    assert!(resp.is_err(), "502 should be error");
    assert!(resp.unwrap_err().contains("502"), "error should mention 502");
}

#[test]
fn parse_http_malformed_garbage() {
    let resp = parse_http_connect_response(b"garbage response line");
    assert!(resp.is_err(), "garbage should be error");
    assert!(resp.unwrap_err().contains("garbage"), "error should contain the garbage line");
}

#[test]
fn parse_http_empty_response() {
    let resp = parse_http_connect_response(b"");
    assert!(resp.is_err(), "empty should be error");
}

#[test]
fn parse_http_bad_version() {
    let resp = parse_http_connect_response(b"HTTP/2.0 200 OK\r\n\r\n");
    assert!(resp.is_err(), "HTTP/2.0 should be rejected");
}

#[test]
fn probe_messages_are_exact() {
    assert_eq!(
        parse_http_connect_response(b"HTTP/1.1 200 Connection Established\r\n\r\n"),
        Ok("HTTP CONNECT proxy connection successful (200)".to_string())
    );
    assert_eq!(
        parse_http_connect_response(b"HTTP/1.1 502 Bad Gateway\r\n\r\n"),
        Err("HTTP proxy CONNECT failed: HTTP 502".to_string())
    );
    assert_eq!(
        parse_http_connect_response(b"garbage response line"),
        Err("HTTP proxy CONNECT failed: garbage response line".to_string())
    );
    assert_eq!(
        parse_http_connect_response(b""),
        Err("HTTP proxy CONNECT failed: ".to_string())
    );
    assert_eq!(
        parse_http_connect_response(b"HTTP/1.1 abc\r\n"),
        Err("HTTP proxy CONNECT failed: HTTP/1.1 abc".to_string())
    );
}

#[test]
fn probe_accepts_the_success_class_only() {
    let cases: [(&[u8], bool); 8] = [
        (b"HTTP/1.1 199 x", false),
        (b"HTTP/1.1 200", true),
        (b"HTTP/1.1 299\r\n", true),
        (b"HTTP/1.1 300 x\n", false),
        (b"HTTP/1.1 +204 x", true),
        (b"HTTP/1.1 00200 x", true),
        (b"HTTP/1.1  200 x", false),
        (b"HTTP/1.1 65736 x", false),
    ];
    for (response, accepted) in cases {
        assert_eq!(parse_http_connect_response(response).is_ok(), accepted);
    }
}

#[test]
fn probe_judges_bytes_that_are_not_utf8_by_status() {
    assert_eq!(
        parse_http_connect_response(b"HTTP/1.1 200 \xc9tabli\r\n\r\n"),
        Ok("HTTP CONNECT proxy connection successful (200)".to_string())
    );
    assert_eq!(
        parse_http_connect_response(b"\xff\r\nHTTP/1.1 200 OK"),
        Err("HTTP proxy CONNECT failed: \u{FFFD}".to_string())
    );
}

#[test]
fn a_lone_carriage_return_stays_in_the_line() {
    assert_eq!(
        judge_for_probe("no\rstatus"),
        Err("HTTP proxy CONNECT failed: no\rstatus".to_string())
    );
    assert_eq!(judge_for_probe("odd\r"), Err("HTTP proxy CONNECT failed: odd\r".to_string()));
    assert_eq!(
        judge_for_tunnel("one\r\ntwo"),
        Err("HTTP proxy CONNECT failed: one".to_string())
    );
}

#[test]
fn tunnel_stands_on_status_200_only() {
    assert_eq!(accept_connect_response(b"HTTP/1.1 200 OK\r\n\r\n"), Ok(()));
    assert_eq!(accept_connect_response(b"HTTP/1.0 200"), Ok(()));
    assert_eq!(accept_connect_response(b"HTTP/1.1 200\xff"), Ok(()));
    assert_eq!(
        accept_connect_response(b"HTTP/1.1 204 No Content\r\n\r\n"),
        Err("HTTP proxy CONNECT failed: HTTP/1.1 204 No Content".to_string())
    );
    assert_eq!(
        accept_connect_response(b""),
        Err("HTTP proxy CONNECT failed: invalid proxy response".to_string())
    );
    assert_eq!(
        accept_connect_response(b"\r\nrest"),
        Err("HTTP proxy CONNECT failed: ".to_string())
    );
    assert_eq!(
        accept_connect_response(b"a\xffb\n"),
        Err("HTTP proxy CONNECT failed: a\u{FFFD}b".to_string())
    );
}

#[test]
fn requests_are_exact() {
    assert_eq!(authority_text("db.internal", 5432), "db.internal:5432");
    assert_eq!(authority_text("h", 0), "h:0");
    assert_eq!(authority_text("h", 65535), "h:65535");
    assert_eq!(
        connect_request(Purpose::Tunnel, "db.internal:5432", None),
        "CONNECT db.internal:5432 HTTP/1.1\r\nHost: db.internal:5432\r\n\r\n"
    );
    assert_eq!(
        authorized_request(Purpose::Tunnel, "db:1", "user", "pass"),
        "CONNECT db:1 HTTP/1.1\r\nHost: db:1\r\n\
         Proxy-Authorization: Basic dXNlcjpwYXNz\r\n\r\n"
    );
    assert_eq!(
        authorized_request(Purpose::Probe, "p:8080", "", "x"),
        "CONNECT p:8080 HTTP/1.1\r\nHost: p:8080\r\nUser-Agent: Mozilla/5.0\r\n\
         Proxy-Connection: Keep-Alive\r\nProxy-Authorization: Basic Ong=\r\n\r\n"
    );
    assert_eq!(
        authorized_request(Purpose::Probe, "p:8080", "", ""),
        "CONNECT p:8080 HTTP/1.1\r\nHost: p:8080\r\nUser-Agent: Mozilla/5.0\r\n\
         Proxy-Connection: Keep-Alive\r\n\r\n"
    );
    assert!(fits_in_token("user", "pass"));
}

#[test]
fn request_ends_with_its_only_empty_line() {
    let request = authorized_request(Purpose::Probe, "p:8080", "user\r\n\r\n", "pass");
    assert_eq!(request.matches("\r\n\r\n").count(), 1);
    assert!(request.ends_with("\r\n\r\n"));
}

#[test]
fn reading_stops_at_the_empty_line_or_the_limit() {
    assert_eq!(
        read_http_response(b"ab\r\n\r".to_vec(), 8192).1,
        Action::ReceiveByte
    );
    assert_eq!(
        read_http_response(b"ab\r\n\r\n".to_vec(), 8192).1,
        Action::Finish(Ok(b"ab\r\n\r\n".to_vec()))
    );
    assert_eq!(
        read_http_response(b"abcd".to_vec(), 4),
        (HttpExchange::Closed, Action::Finish(Ok(b"abcd".to_vec())))
    );
    assert_eq!(RESPONSE_LIMIT, 8192);
}

fn run_exchange(purpose: Purpose, stream: &[u8]) -> (Result<Vec<u8>, String>, usize) {
    let mut state = HttpExchange::Start;
    let mut event = Event::Started;
    let mut at = 0;
    loop {
        assert!(event.answers(state.awaits()));
        let (next, action) = advance_exchange(state, purpose, "request", event);
        state = next;
        event = match action {
            Action::Send(bytes) => {
                assert_eq!(bytes, b"request");
                Event::Sent
            }
            Action::ReceiveByte if at < stream.len() => {
                at += 1;
                Event::Received(vec![stream[at - 1]])
            }
            Action::ReceiveByte => Event::Received(vec![]),
            Action::Finish(result) => return (result, at),
            other => panic!("{other:?}"),
        };
    }
}

#[test]
fn exchange_leaves_what_follows_the_response() {
    let (result, read) = run_exchange(Purpose::Tunnel, b"HTTP/1.1 200 OK\r\n\r\nSSH-2.0");
    assert_eq!(result, Ok(b"HTTP/1.1 200 OK\r\n\r\n".to_vec()));
    assert_eq!(read, 19);
    let (result, read) = run_exchange(Purpose::Probe, b"HTTP/1.1 200");
    assert_eq!(result, Ok(b"HTTP/1.1 200".to_vec()));
    assert_eq!(read, 12);
    let (result, read) = run_exchange(Purpose::Probe, &[b'x'; 9000]);
    assert_eq!(result.map(|response| response.len()), Ok(8192));
    assert_eq!(read, 8192);
}

#[test]
fn exchange_failures_are_reported_by_purpose() {
    let failed = || Event::Failed("broken".to_string());
    let cases = [
        (HttpExchange::Request, Purpose::Tunnel, "Failed to send CONNECT request: broken"),
        (HttpExchange::Request, Purpose::Probe, "broken"),
        (HttpExchange::Response(vec![1]), Purpose::Tunnel, "Failed to read CONNECT response: broken"),
        (HttpExchange::Response(vec![1]), Purpose::Probe, "broken"),
    ];
    for (state, purpose, message) in cases {
        let (next, action) = advance_exchange(state, purpose, "", failed());
        assert_eq!(next, HttpExchange::Closed);
        assert_eq!(next.awaits(), Awaiting::Nothing);
        assert_eq!(action, Action::Finish(Err(message.to_string())));
    }
}

#[test]
fn http_connect_asks_for_the_remote_host() {
    let proxy = ProxyEndpoint::new(ProxyType::Http, "proxy", 8080, "user", "pass");
    let remote = RemoteEndpoint::new("db.internal", 5432);
    let (state, action) = http_connect(HttpExchange::Start, &proxy, &remote, Event::Started);
    assert_eq!(state, HttpExchange::Request);
    assert_eq!(
        action,
        Action::Send(
            b"CONNECT db.internal:5432 HTTP/1.1\r\nHost: db.internal:5432\r\n\
              Proxy-Authorization: Basic dXNlcjpwYXNz\r\n\r\n"
                .to_vec()
        )
    );
    let almost = HttpExchange::Response(b"HTTP/1.1 200 OK\r\n\r".to_vec());
    let (_, action) = http_connect(almost, &proxy, &remote, Event::Received(vec![b'\n']));
    assert_eq!(action, Action::Finish(Ok(())));
    let almost = HttpExchange::Response(b"HTTP/1.1 407 No".to_vec());
    let (_, action) = http_connect(almost, &proxy, &remote, Event::Received(vec![]));
    assert_eq!(
        action,
        Action::Finish(Err("HTTP proxy CONNECT failed: HTTP/1.1 407 No".to_string()))
    );
}

fn token(username: &str, password: &str) -> String {
    let request = authorized_request(Purpose::Tunnel, "h:1", username, password);
    let line = request.lines().find(|line| line.starts_with("Proxy-Authorization")).unwrap();
    line["Proxy-Authorization: Basic ".len()..].to_string()
}

#[test]
fn tokens_are_standard_base64_with_padding() {
    assert_eq!(token("a", ""), "YTo=");
    assert_eq!(token("a", "b"), "YTpi");
    assert_eq!(token("a", "bc"), "YTpiYw==");
    assert_eq!(token("Aladdin", "open sesame"), "QWxhZGRpbjpvcGVuIHNlc2FtZQ==");
    assert_eq!(token("\u{fb}\u{ff}", "\u{3ff}"), "w7vDvzrPvw==");
    assert_eq!(token("?>", "?>~"), "Pz46Pz5+");
    assert_eq!(
        token("a-rather-long-username", "and-a-long-password"),
        "YS1yYXRoZXItbG9uZy11c2VybmFtZTphbmQtYS1sb25nLXBhc3N3b3Jk"
    );
}

#[test]
fn tokens_fix_the_credentials() {
    assert_ne!(token("a", "b"), token("b", "a"));
    assert_ne!(token("ab", "c"), token("a", "bc"));
    assert_eq!(token("a:b", "c"), token("a", "b:c"));
}

#[test]
fn only_the_first_line_counts() {
    let tails: [&[u8]; 4] = [b"", b"HTTP/1.1 200 OK\r\n\r\n", b"\xff\xfe", b"\n\n"];
    let lines: [&[u8]; 4] =
        [b"HTTP/1.1 204 Fine\r\n", b"HTTP/1.1 200\n", b"n\xc3\xb6\r\n", b"\n"];
    for line in lines {
        for tail in tails {
            let response = [line, tail].concat();
            assert_eq!(parse_http_connect_response(&response), parse_http_connect_response(line));
            assert_eq!(accept_connect_response(&response), accept_connect_response(line));
        }
    }
}

#[test]
fn reading_obeys_any_limit() {
    let stream = b"ab\r\n\r\nrest";
    for (max_size, read) in [(0, 0), (1, 1), (5, 5), (6, 6), (7, 6), (100, 6)] {
        let mut response = Vec::new();
        let whole = loop {
            match read_http_response(response, max_size) {
                (HttpExchange::Response(so_far), Action::ReceiveByte) => {
                    response = so_far;
                    response.push(stream[response.len()]);
                }
                (HttpExchange::Closed, Action::Finish(Ok(whole))) => break whole,
                other => panic!("{other:?}"),
            }
        };
        assert_eq!(whole, stream[..read].to_vec());
    }
}

#[test]
fn nothing_after_the_code_counts() {
    let endings: [&[u8]; 4] = [b"", b"OK\r\n", b"\xff\xfe", b"404 \xc3\n200"];
    for ending in endings {
        let accepted = [b"HTTP/1.\xc3\xb6 +0207 ".as_slice(), ending].concat();
        assert_eq!(
            parse_http_connect_response(&accepted),
            Ok("HTTP CONNECT proxy connection successful (207)".to_string())
        );
        let refused = [b"HTTP/1.1 302 ".as_slice(), ending].concat();
        assert_eq!(
            parse_http_connect_response(&refused),
            Err("HTTP proxy CONNECT failed: HTTP 302".to_string())
        );
        let odd = [b"HTTP/1.1 2x0 ".as_slice(), ending].concat();
        assert!(parse_http_connect_response(&odd).is_err());
    }
}

#[test]
fn a_code_that_is_not_utf8_is_refused() {
    for response in [b"HTTP/1.1 20\xff OK".as_slice(), b"HTTP/1.1 \xc3 200\r\n", b"HTTP/1.1 +\xff"] {
        assert!(parse_http_connect_response(response).is_err());
    }
}
