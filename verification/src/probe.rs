//! Testing that a proxy works, by a whole handshake with it.

use crate::connection;
use crate::connection::{Connection, ConnectionView, CONNECT_TIMEOUT_SECS};
use crate::encoding;
use crate::endpoint::{ProxyEndpoint, ProxyType, ProxyView, Purpose, RemoteEndpoint, RemoteView};
use crate::http;
use crate::http::{ExchangeView, HttpExchange};
use crate::reading;
use crate::socks5;
use crate::socks5::Socks5Phase;
use crate::text;
use crate::wire;
use crate::wire::{Action, ActionView, Course, Event, EventView};
use vstd::prelude::*;
use vstd::utf8::*;

verus! {

// ---------------------------------------------------------------------------
// The host
// ---------------------------------------------------------------------------

/// The host without the brackets that an IPv6 address may be typed in.
pub open spec fn bare_host(host: Seq<char>) -> Seq<char> {
    text::trimmed_end(text::trimmed_start(host, '['), ']')
}

/// The host as an HTTP request names it: without an IPv6 zone, which has no
/// place in a URI, and with an IPv6 address in brackets.
pub open spec fn uri_host(host: Seq<char>) -> Seq<char> {
    let name = text::before(host, '%');
    if name.contains(':') {
        "["@ + name + "]"@
    } else {
        name
    }
}

/// What the probe asks an HTTP proxy to connect to: the proxy itself.
pub open spec fn probe_target(host: Seq<char>, port: u16) -> Seq<char> {
    http::authority(uri_host(bare_host(host)), port)
}

/// Strips the brackets that an IPv6 address may be typed in.
pub fn strip_brackets(host: &str) -> (bare: &str)
    ensures
        bare@ == bare_host(host@),
{
    text::trim_end(text::trim_start(host, '['), ']')
}

/// Writes what the probe asks an HTTP proxy to connect to.
pub fn probe_target_text(host: &str, port: u16) -> (target: String)
    ensures
        target@ == probe_target(host@, port),
{
    let name = text::head(strip_brackets(host), '%');
    if text::contains(name, ':') {
        let mut bracketed = "[".to_owned();
        bracketed.append(name);
        bracketed.append("]");
        http::authority_text(bracketed.as_str(), port)
    } else {
        http::authority_text(name, port)
    }
}

// ---------------------------------------------------------------------------
// The conversation
// ---------------------------------------------------------------------------

/// The proxy as the probe reaches it.
pub open spec fn probed(
    proxy_type: ProxyType,
    host: Seq<char>,
    port: u16,
    username: Seq<char>,
    password: Seq<char>,
) -> ProxyView {
    ProxyView { proxy_type, host: bare_host(host), port, username, password }
}

/// The time allowed, as messages give it.
pub open spec fn allowance() -> Seq<char> {
    text::decimal(CONNECT_TIMEOUT_SECS as nat) + "s"@
}

/// Whether a handshake is under way.
pub open spec fn is_handshaking(connection: ConnectionView) -> bool {
    match connection {
        ConnectionView::Http(exchange) => !(exchange is Closed),
        ConnectionView::Socks5(phase) => !(phase is Closed),
        _ => false,
    }
}

/// Whether `event` is an answer to what the probe waits for. A handshake may
/// also run out of time, whatever it waits for.
pub open spec fn is_probe_answer(connection: ConnectionView, event: EventView) -> bool {
    wire::is_answer(connection.awaits(), event) || is_handshaking(connection)
        && event is TimedOut
}

/// Tells whether `event` is an answer to what the probe waits for.
pub fn answers_probe(connection: &Connection, event: &Event) -> (yes: bool)
    ensures
        yes == is_probe_answer(connection@, event@),
{
    let handshaking = match connection {
        Connection::Http(HttpExchange::Closed) => false,
        Connection::Http(_) => true,
        Connection::Socks5(Socks5Phase::Closed) => false,
        Connection::Socks5(_) => true,
        _ => false,
    };
    event.answers(connection.awaits()) || handshaking && matches!(event, Event::TimedOut)
}

/// How a failed handshake is reported, `elapsed` after the start.
pub open spec fn handshake_failure(elapsed: Seq<char>, reason: Seq<char>) -> Seq<char> {
    "Proxy handshake failed ("@ + elapsed + "): "@ + reason
}

/// The result of a probe whose handshake came to `result`.
pub open spec fn outcome(result: Result<Seq<char>, Seq<char>>, elapsed: Seq<char>) -> Result<
    Seq<char>,
    Seq<char>,
> {
    match result {
        Ok(message) => Ok(message),
        Err(reason) => Err(handshake_failure(elapsed, reason)),
    }
}

/// `action`, with a failure reported as that of a handshake.
pub open spec fn reported(action: ActionView<Seq<char>>, elapsed: Seq<char>) -> ActionView<
    Seq<char>,
> {
    match action {
        ActionView::Finish(result) => ActionView::Finish(outcome(result, elapsed)),
        other => other,
    }
}

/// The request that the probe sends to an HTTP proxy.
pub open spec fn probe_request(
    host: Seq<char>,
    port: u16,
    username: Seq<char>,
    password: Seq<char>,
) -> Seq<char> {
    http::request_text(
        Purpose::Probe,
        probe_target(host, port),
        http::token_of(username, password),
    )
}

/// The step of the probe's HTTP handshake.
pub open spec fn http_probe_step(
    exchange: ExchangeView,
    request: Seq<char>,
    elapsed: Seq<char>,
    event: EventView,
) -> (ConnectionView, ActionView<Seq<char>>) {
    let (next, action) = http::exchange_step(exchange, Purpose::Probe, request, event);
    (
        ConnectionView::Http(next),
        reported(
            wire::concluded(
                action,
                |response: Seq<u8>| http::probe_verdict(encoding::utf8_lossy(response)),
            ),
            elapsed,
        ),
    )
}

/// Whether `action` ends a probe's handshake as the bytes of `response` call
/// for: it succeeds by the code in their status line.
pub open spec fn is_probe_judgement(
    response: Seq<u8>,
    elapsed: Seq<char>,
    action: ActionView<Seq<char>>,
) -> bool {
    let verdict = http::probe_verdict(encoding::utf8_lossy(response));
    &&& action == ActionView::Finish(outcome(verdict, elapsed))
    &&& encoding::lossy_text_of(response, encoding::utf8_lossy(response))
    &&& http::is_probe_verdict(response, verdict)
}

/// The step of the probe's SOCKS5 handshake: the proxy is asked to connect to
/// itself.
pub open spec fn socks5_probe_step(
    phase: Socks5Phase,
    proxy: ProxyView,
    elapsed: Seq<char>,
    event: EventView,
) -> (ConnectionView, ActionView<Seq<char>>) {
    let (next, action) = socks5::socks5_step(
        phase,
        Purpose::Probe,
        proxy,
        RemoteView { host: proxy.host, port: proxy.port },
        event,
    );
    (
        ConnectionView::Socks5(next),
        reported(
            wire::concluded(
                action,
                |done: ()| Ok::<Seq<char>, Seq<char>>("SOCKS5 proxy connection successful"@),
            ),
            elapsed,
        ),
    )
}

/// The step of the probe's handshake, for the protocol that the connection
/// speaks.
pub open spec fn handshake_step(
    connection: ConnectionView,
    proxy: ProxyView,
    request: Seq<char>,
    elapsed: Seq<char>,
    event: EventView,
) -> (ConnectionView, ActionView<Seq<char>>) {
    match connection {
        ConnectionView::Http(exchange) => http_probe_step(exchange, request, elapsed, event),
        ConnectionView::Socks5(phase) => socks5_probe_step(phase, proxy, elapsed, event),
        _ => arbitrary(),
    }
}

/// The handshake that `proxy_type` calls for, before its first step.
pub open spec fn handshake_of(proxy_type: ProxyType) -> ConnectionView {
    match proxy_type {
        ProxyType::Http => ConnectionView::Http(ExchangeView::Start),
        ProxyType::Socks5 => ConnectionView::Socks5(Socks5Phase::Start),
    }
}

/// The step of a probe: a connection to the proxy, then a handshake in which it
/// is asked to connect to itself. `elapsed` tells how long the probe has run.
pub open spec fn probe_step(
    connection: ConnectionView,
    proxy: ProxyView,
    request: Seq<char>,
    elapsed: Seq<char>,
    event: EventView,
) -> (ConnectionView, ActionView<Seq<char>>) {
    match (connection, event) {
        (ConnectionView::Start, EventView::Started) => (
            ConnectionView::Connecting,
            ActionView::Connect { host: proxy.host, port: proxy.port },
        ),
        (ConnectionView::Connecting, EventView::Connected) => handshake_step(
            handshake_of(proxy.proxy_type),
            proxy,
            request,
            elapsed,
            EventView::Started,
        ),
        (ConnectionView::Connecting, EventView::TimedOut) => (
            ConnectionView::Closed,
            ActionView::Finish(Err("Proxy connection timed out ("@ + allowance() + ")"@)),
        ),
        (ConnectionView::Connecting, EventView::Failed(reason)) => (
            ConnectionView::Closed,
            ActionView::Finish(Err("Failed to connect to proxy: "@ + reason)),
        ),
        (_, EventView::TimedOut) => (
            ConnectionView::Closed,
            ActionView::Finish(Err("Proxy handshake timed out ("@ + allowance() + ")"@)),
        ),
        _ => handshake_step(connection, proxy, request, elapsed, event),
    }
}

fn allowance_text() -> (allowed: String)
    ensures
        allowed@ == allowance(),
{
    let mut allowed = text::decimal_text(CONNECT_TIMEOUT_SECS as u16);
    allowed.append("s");
    allowed
}

fn timed_out(what: &str) -> (message: String)
    ensures
        message@ == what@ + allowance() + ")"@,
{
    let mut message = what.to_owned();
    message.append(allowance_text().as_str());
    message.append(")");
    message
}

fn report(result: Result<String, String>, elapsed: &str) -> (action: Action<String>)
    ensures
        action@ == reported(ActionView::Finish(wire::result_view(result)), elapsed@),
{
    match result {
        Ok(message) => Action::Finish(Ok(message)),
        Err(reason) => {
            let mut message = "Proxy handshake failed (".to_owned();
            message.append(elapsed);
            message.append("): ");
            message.append(reason.as_str());
            Action::Finish(Err(message))
        },
    }
}

fn http_probe(exchange: HttpExchange, request: &str, elapsed: &str, event: Event) -> (next: (
    Connection,
    Action<String>,
))
    requires
        wire::is_answer(exchange@.awaits(), event@),
    ensures
        (next.0@, next.1@) == http_probe_step(exchange@, request@, elapsed@, event@),
        http::exchange_step(exchange@, Purpose::Probe, request@, event@).1 matches
            ActionView::Finish(Ok(response)) ==> is_probe_judgement(response, elapsed@, next.1@),
        next.0@.awaits() == wire::awaited_by(next.1@),
{
    let (next, action) = http::advance_exchange(exchange, Purpose::Probe, request, event);
    let concluded = match action {
        Action::Connect { host, port } => Action::Connect { host, port },
        Action::Send(bytes) => Action::Send(bytes),
        Action::Receive(count) => Action::Receive(count),
        Action::ReceiveByte => Action::ReceiveByte,
        Action::Finish(Ok(response)) => report(
            http::parse_http_connect_response(response.as_slice()),
            elapsed,
        ),
        Action::Finish(Err(reason)) => report(Err(reason), elapsed),
    };
    (Connection::Http(next), concluded)
}

fn socks5_probe(phase: Socks5Phase, proxy: &ProxyEndpoint, elapsed: &str, event: Event) -> (next: (
    Connection,
    Action<String>,
))
    requires
        wire::is_answer(socks5::phase_awaits(phase), event@),
    ensures
        (next.0@, next.1@) == socks5_probe_step(phase, proxy@, elapsed@, event@),
        next.0@.awaits() == wire::awaited_by(next.1@),
{
    let itself = RemoteEndpoint { host: proxy.host.clone(), port: proxy.port };
    let (next, action) = socks5::socks5_connect(phase, Purpose::Probe, proxy, &itself, event);
    let concluded = match action {
        Action::Connect { host, port } => Action::Connect { host, port },
        Action::Send(bytes) => Action::Send(bytes),
        Action::Receive(count) => Action::Receive(count),
        Action::ReceiveByte => Action::ReceiveByte,
        Action::Finish(Ok(_)) => report(
            Ok("SOCKS5 proxy connection successful".to_owned()),
            elapsed,
        ),
        Action::Finish(Err(reason)) => report(Err(reason), elapsed),
    };
    (Connection::Socks5(next), concluded)
}

/// Takes the next step of testing a proxy. The first step answers
/// [`Event::Started`]; `elapsed` tells how long the test has run. The result is
/// a message that tells of success, or what went wrong.
#[allow(clippy::too_many_arguments)]
pub fn test_proxy_endpoint(
    connection: Connection,
    proxy_type: ProxyType,
    host: &str,
    port: u16,
    username: &str,
    password: &str,
    elapsed: &str,
    event: Event,
) -> (next: (Connection, Action<String>))
    requires
        is_probe_answer(connection@, event@),
        connection::writes_token(connection@, proxy_type, event@) ==> http::token_fits(
            username@,
            password@,
        ),
    ensures
        (next.0@, next.1@) == probe_step(
            connection@,
            probed(proxy_type, host@, port, username@, password@),
            probe_request(host@, port, username@, password@),
            elapsed@,
            event@,
        ),
        next.0@.awaits() == wire::awaited_by(next.1@),
        connection@ is Start ==> next.1@ == (ActionView::<Seq<char>>::Connect {
            host: bare_host(host@),
            port,
        }),
        connection@ is Connecting && event@ is Connected && proxy_type is Http ==> (
        next.1@ matches ActionView::Send(bytes) && (http::unbroken(host@)
            ==> http::reads_as_request(
            decode_utf8(bytes),
            probe_target(host@, port),
            username@,
            password@,
        ))),
        connection@ == ConnectionView::Socks5(Socks5Phase::Method) && event@
            == EventView::Received(seq![5u8, 2u8]) && encode_utf8(username@).len() <= 255
            && encode_utf8(password@).len() <= 255 ==> (next.1@ matches ActionView::Send(bytes)
            && reading::credentials_carried(bytes) == Some(
            (encode_utf8(username@), encode_utf8(password@)),
        )),
        !(event@ is TimedOut) ==> (connection@ matches ConnectionView::Http(exchange) ==> (
        http::exchange_step(
            exchange,
            Purpose::Probe,
            probe_request(host@, port, username@, password@),
            event@,
        ).1 matches ActionView::Finish(Ok(response)) ==> is_probe_judgement(
            response,
            elapsed@,
            next.1@,
        ))),
{
    proof {
        let request = probe_request(host@, port, username@, password@);
        encode_utf8_decode_utf8(request);
        if http::unbroken(host@) {
            lemma_unbroken_target(host@, port);
            http::lemma_reads_as_request(
                Purpose::Probe,
                probe_target(host@, port),
                username@,
                password@,
            );
        }
        law_probe_presents_the_credentials_given(
            host@,
            port,
            username@,
            password@,
            request,
            elapsed@,
        );
    }
    let proxy = ProxyEndpoint::new(proxy_type, strip_brackets(host), port, username, password);
    match (connection, event) {
        (Connection::Start, _) => (
            Connection::Connecting,
            Action::Connect { host: proxy.host.clone(), port: proxy.port },
        ),
        (Connection::Connecting, Event::Connected) => match proxy_type {
            ProxyType::Http => {
                let request = http::authorized_request(
                    Purpose::Probe,
                    probe_target_text(host, port).as_str(),
                    username,
                    password,
                );
                http_probe(HttpExchange::Start, request.as_str(), elapsed, Event::Started)
            },
            ProxyType::Socks5 => socks5_probe(Socks5Phase::Start, &proxy, elapsed, Event::Started),
        },
        (Connection::Connecting, Event::Failed(reason)) => (
            Connection::Closed,
            Action::Finish(Err(text::prefixed("Failed to connect to proxy: ", reason.as_str()))),
        ),
        (Connection::Connecting, _) => (
            Connection::Closed,
            Action::Finish(Err(timed_out("Proxy connection timed out ("))),
        ),
        (_, Event::TimedOut) => (
            Connection::Closed,
            Action::Finish(Err(timed_out("Proxy handshake timed out ("))),
        ),
        (Connection::Http(HttpExchange::Start), event) => {
            let request = http::authorized_request(
                Purpose::Probe,
                probe_target_text(host, port).as_str(),
                username,
                password,
            );
            http_probe(HttpExchange::Start, request.as_str(), elapsed, event)
        },
        (Connection::Http(exchange), event) => http_probe(exchange, "", elapsed, event),
        (Connection::Socks5(phase), event) => socks5_probe(phase, &proxy, elapsed, event),
        _ => unreached(),
    }
}

// ---------------------------------------------------------------------------
// Laws
// ---------------------------------------------------------------------------

proof fn lemma_trimmed_start_of_more(text: Seq<char>, tail: char)
    requires
        tail != '[',
    ensures
        text::trimmed_start(text.push(tail), '[') == text::trimmed_start(text, '[').push(tail),
    decreases text.len(),
{
    if text.len() > 0 && text[0] == '[' {
        assert(text.push(tail).drop_first() =~= text.drop_first().push(tail));
        lemma_trimmed_start_of_more(text.drop_first(), tail);
    } else if text.len() == 0 {
        assert(text.push(tail)[0] == tail);
    } else {
        assert(text.push(tail)[0] == text[0]);
    }
}

/// A host means the same with brackets around it as without.
pub proof fn law_brackets_do_not_matter(host: Seq<char>)
    ensures
        bare_host("["@ + host + "]"@) == bare_host(host),
{
    reveal_strlit("[");
    reveal_strlit("]");
    let bracketed = "["@ + host + "]"@;
    assert(bracketed.drop_first() =~= host.push(']'));
    lemma_trimmed_start_of_more(host, ']');
    let inner = text::trimmed_start(host, '[');
    assert(inner.push(']').drop_last() =~= inner);
}

/// The target of an HTTP probe never holds a zone.
pub proof fn law_target_holds_no_zone(host: Seq<char>, port: u16)
    ensures
        !probe_target(host, port).contains('%'),
{
    reveal_strlit("[");
    reveal_strlit("]");
    reveal_strlit(":");
    let bare = bare_host(host);
    let name = text::before(bare, '%');
    let target = probe_target(host, port);
    let digits = text::decimal(port as nat);
    text::lemma_position(bare, '%');
    text::lemma_decimal_excludes(port as nat, '%');
    let named = uri_host(bare);
    assert forall|i: int| 0 <= i < named.len() implies named[i] != '%' by {
        if name.contains(':') {
            if 0 < i < named.len() - 1 {
                assert(named[i] == name[i - 1]);
            }
        }
    }
    assert forall|i: int| 0 <= i < target.len() implies target[i] != '%' by {
        if i < named.len() {
            assert(target[i] == named[i]);
        } else if i > named.len() {
            assert(target[i] == digits[i - named.len() - 1]);
        }
    }
}

/// Whatever the probe waits for, a failure ends it with an error that gives the
/// reason last.
pub proof fn law_failure_ends_the_probe(
    connection: ConnectionView,
    proxy: ProxyView,
    request: Seq<char>,
    elapsed: Seq<char>,
    reason: Seq<char>,
)
    requires
        is_probe_answer(connection, EventView::Failed(reason)),
    ensures
        probe_step(connection, proxy, request, elapsed, EventView::Failed(reason)).1 matches
            ActionView::Finish(Err(message)) && reason.is_suffix_of(message),
{
    let connecting = "Failed to connect to proxy: "@ + reason;
    assert(connecting.subrange(connecting.len() - reason.len(), connecting.len() as int)
        =~= reason);
    let failed = handshake_failure(elapsed, reason);
    assert(failed.subrange(failed.len() - reason.len(), failed.len() as int) =~= reason);
}

/// A probe that runs out of time ends with an error at once, whether it still
/// connects or is in the middle of a handshake.
pub proof fn law_timeout_ends_the_probe(
    connection: ConnectionView,
    proxy: ProxyView,
    request: Seq<char>,
    elapsed: Seq<char>,
)
    requires
        connection is Connecting || is_handshaking(connection),
    ensures
        is_probe_answer(connection, EventView::TimedOut),
        ({
            let step = probe_step(connection, proxy, request, elapsed, EventView::TimedOut);
            step.0 is Closed && (step.1 matches ActionView::Finish(Err(_)))
        }),
{
}

/// The course of probing a proxy that is there, takes all it is sent and
/// answers with `stream` in time.
pub open spec fn probe_course(
    connection: ConnectionView,
    proxy: ProxyView,
    request: Seq<char>,
    elapsed: Seq<char>,
    stream: Seq<u8>,
    end: Seq<char>,
) -> Course<Seq<char>>
    decreases stream.len(), connection::stages_left(connection),
{
    let awaiting = connection.awaits();
    let (next, action) = probe_step(
        connection,
        proxy,
        request,
        elapsed,
        wire::heard(awaiting, stream, end),
    );
    let rest = wire::left_unread(awaiting, stream);
    let later = if rest.len() < stream.len() || rest.len() == stream.len()
        && connection::stages_left(next) < connection::stages_left(connection) {
        probe_course(next, proxy, request, elapsed, rest, end)
    } else {
        arbitrary()
    };
    wire::continued(action, rest, later)
}

proof fn lemma_course_through_http(
    exchange: ExchangeView,
    proxy: ProxyView,
    request: Seq<char>,
    elapsed: Seq<char>,
    stream: Seq<u8>,
    end: Seq<char>,
)
    requires
        !(exchange is Closed),
    ensures
        ({
            let course = probe_course(
                ConnectionView::Http(exchange),
                proxy,
                request,
                elapsed,
                stream,
                end,
            );
            let inner = http::exchange_course(exchange, Purpose::Probe, request, stream, end);
            &&& course.dialled == inner.dialled
            &&& course.sent == inner.sent
            &&& course.rest == inner.rest
            &&& course.result == outcome(
                match inner.result {
                    Ok(response) => http::probe_verdict(encoding::utf8_lossy(response)),
                    Err(reason) => Err(reason),
                },
                elapsed,
            )
        }),
    decreases stream.len(), http::stages_left(exchange),
{
    let event = wire::heard(exchange.awaits(), stream, end);
    let (next, action) = http::exchange_step(exchange, Purpose::Probe, request, event);
    let rest = wire::left_unread(exchange.awaits(), stream);
    if !(action is Finish) {
        lemma_course_through_http(next, proxy, request, elapsed, rest, end);
    }
}

proof fn lemma_course_through_socks5(
    phase: Socks5Phase,
    proxy: ProxyView,
    request: Seq<char>,
    elapsed: Seq<char>,
    stream: Seq<u8>,
    end: Seq<char>,
)
    requires
        !(phase is Closed),
    ensures
        ({
            let course = probe_course(
                ConnectionView::Socks5(phase),
                proxy,
                request,
                elapsed,
                stream,
                end,
            );
            let itself = RemoteView { host: proxy.host, port: proxy.port };
            let inner = socks5::socks5_course(phase, Purpose::Probe, proxy, itself, stream, end);
            &&& course.dialled == inner.dialled
            &&& course.sent == inner.sent
            &&& course.rest == inner.rest
            &&& course.result == outcome(
                match inner.result {
                    Ok(_) => Ok("SOCKS5 proxy connection successful"@),
                    Err(reason) => Err(reason),
                },
                elapsed,
            )
        }),
    decreases socks5::phases_left(phase),
{
    let itself = RemoteView { host: proxy.host, port: proxy.port };
    let event = wire::heard(socks5::phase_awaits(phase), stream, end);
    let (next, action) = socks5::socks5_step(phase, Purpose::Probe, proxy, itself, event);
    let rest = wire::left_unread(socks5::phase_awaits(phase), stream);
    socks5::law_conversation_ends(phase, Purpose::Probe, proxy, itself, event);
    if !(action is Finish) {
        lemma_course_through_socks5(next, proxy, request, elapsed, rest, end);
    }
}

/// A probe of an HTTP proxy is a whole exchange: one request is sent, one
/// response is read, and the result is the verdict on it. It succeeds by the
/// code in the status line; the premise of that on lossy text is given by the
/// last step.
pub proof fn law_probe_of_http(
    proxy: ProxyView,
    request: Seq<char>,
    elapsed: Seq<char>,
    stream: Seq<u8>,
    end: Seq<char>,
)
    requires
        proxy.proxy_type is Http,
    ensures
        ({
            let course = probe_course(
                ConnectionView::Start,
                proxy,
                request,
                elapsed,
                stream,
                end,
            );
            let response = stream.take(stream.len() - course.rest.len());
            let verdict = http::probe_verdict(encoding::utf8_lossy(response));
            &&& course.dialled == seq![(proxy.host, proxy.port)]
            &&& course.sent == seq![encode_utf8(request)]
            &&& http::is_response_of(response, stream, http::RESPONSE_LIMIT as nat)
            &&& response + course.rest == stream
            &&& course.result == outcome(verdict, elapsed)
            &&& encoding::lossy_text_of(response, encoding::utf8_lossy(response)) ==> {
                &&& http::is_probe_verdict(response, verdict)
                &&& http::status_decides(response, course.result is Ok)
            }
        }),
{
    let course = probe_course(ConnectionView::Start, proxy, request, elapsed, stream, end);
    let connected = probe_course(
        ConnectionView::Connecting,
        proxy,
        request,
        elapsed,
        stream,
        end,
    );
    assert(course.result == connected.result && course.sent == connected.sent && course.rest
        == connected.rest);
    let exchange = http::exchange_course(ExchangeView::Start, Purpose::Probe, request, stream, end);
    http::law_exchange_reads_the_response_only(Purpose::Probe, request, stream, end);
    lemma_course_through_http(ExchangeView::Request, proxy, request, elapsed, stream, end);
    let response = exchange.result->Ok_0;
    assert(stream.take(stream.len() - exchange.rest.len()) =~= response);
    if encoding::lossy_text_of(response, encoding::utf8_lossy(response)) {
        http::lemma_probe_verdict(response, encoding::utf8_lossy(response));
    }
}

/// A probe of a SOCKS5 proxy succeeds exactly when the proxy lets the client in
/// and grants the request for itself.
pub proof fn law_probe_of_socks5(
    proxy: ProxyView,
    request: Seq<char>,
    elapsed: Seq<char>,
    stream: Seq<u8>,
    end: Seq<char>,
)
    requires
        proxy.proxy_type is Socks5,
    ensures
        ({
            let course = probe_course(
                ConnectionView::Start,
                proxy,
                request,
                elapsed,
                stream,
                end,
            );
            let itself = RemoteView { host: proxy.host, port: proxy.port };
            &&& course.dialled == seq![(proxy.host, proxy.port)]
            &&& course.result == match socks5::socks5_course(
                Socks5Phase::Start,
                Purpose::Probe,
                proxy,
                itself,
                stream,
                end,
            ).result {
                Ok(_) => Ok("SOCKS5 proxy connection successful"@),
                Err(reason) => Err("Proxy handshake failed ("@ + elapsed + "): "@ + reason),
            }
            &&& course.result is Ok <==> socks5::establishes(proxy, itself, stream)
            &&& course.result is Ok ==> {
                &&& course.result == Ok::<Seq<char>, Seq<char>>(
                    "SOCKS5 proxy connection successful"@,
                )
                &&& course.sent == socks5::messages(proxy, itself, stream)
            }
        }),
{
    let itself = RemoteView { host: proxy.host, port: proxy.port };
    let course = probe_course(ConnectionView::Start, proxy, request, elapsed, stream, end);
    let connected = probe_course(
        ConnectionView::Connecting,
        proxy,
        request,
        elapsed,
        stream,
        end,
    );
    assert(course.result == connected.result && course.sent == connected.sent && course.rest
        == connected.rest);
    socks5::law_conversation_succeeds_iff_established(Purpose::Probe, proxy, itself, stream, end);
    lemma_course_through_socks5(Socks5Phase::Start, proxy, request, elapsed, stream, end);
    socks5::law_conversation_dials_no_one(
        Socks5Phase::Start,
        Purpose::Probe,
        proxy,
        itself,
        stream,
        end,
    );
    assert(connected == probe_course(
        ConnectionView::Socks5(Socks5Phase::Start),
        proxy,
        request,
        elapsed,
        stream,
        end,
    ));
}

/// The endpoint that a probe uses is the one given: its type, its port, its
/// username and its password are kept, and its host loses the brackets around
/// it and nothing else.
pub proof fn law_probe_uses_the_endpoint_given(
    proxy_type: ProxyType,
    host: Seq<char>,
    port: u16,
    username: Seq<char>,
    password: Seq<char>,
)
    ensures
        ({
            let proxy = probed(proxy_type, host, port, username, password);
            &&& proxy.proxy_type == proxy_type
            &&& proxy.port == port
            &&& proxy.username == username
            &&& proxy.password == password
            &&& exists|m: int, n: int|
                {
                    &&& 0 <= m <= n <= host.len()
                    &&& proxy.host == #[trigger] host.subrange(m, n)
                    &&& forall|i: int| 0 <= i < m ==> host[i] == '['
                    &&& forall|i: int| n <= i < host.len() ==> host[i] == ']'
                }
            &&& proxy.host.len() > 0 ==> proxy.host[0] != '[' && proxy.host.last() != ']'
        }),
{
    let inner = text::trimmed_start(host, '[');
    let bare = bare_host(host);
    text::law_trimming_the_start(host, '[');
    text::law_trimming_the_end(inner, ']');
    let m = host.len() - inner.len();
    let n = m + bare.len();
    assert(bare =~= host.subrange(m, n));
    assert forall|i: int| n <= i < host.len() implies host[i] == ']' by {
        assert(inner[i - m] == host[i]);
    }
}

/// A probe connects to the host without its brackets and to the port given.
pub proof fn law_probe_dials_the_proxy(
    proxy_type: ProxyType,
    host: Seq<char>,
    port: u16,
    username: Seq<char>,
    password: Seq<char>,
    request: Seq<char>,
    elapsed: Seq<char>,
)
    ensures
        probe_step(
            ConnectionView::Start,
            probed(proxy_type, host, port, username, password),
            request,
            elapsed,
            EventView::Started,
        ) == (
            ConnectionView::Connecting,
            ActionView::<Seq<char>>::Connect { host: bare_host(host), port },
        ),
{
}

/// An HTTP proxy is asked to connect to itself: to its host without brackets
/// and zone, with brackets around it if it holds a colon, and to its port. The
/// request carries the credentials given exactly when there are any, letter by
/// letter; and a proxy that reads it finds them in it.
pub proof fn law_probe_asks_for_the_proxy_itself(
    host: Seq<char>,
    port: u16,
    username: Seq<char>,
    password: Seq<char>,
    elapsed: Seq<char>,
    name: Seq<char>,
    zone: Seq<char>,
)
    requires
        !name.contains('%'),
        bare_host(host) == name || bare_host(host) == name + seq!['%'] + zone,
    ensures
        ({
            let (next, action) = probe_step(
                ConnectionView::Connecting,
                probed(ProxyType::Http, host, port, username, password),
                probe_request(host, port, username, password),
                elapsed,
                EventView::Connected,
            );
            let named = if name.contains(':') {
                seq!['['] + name + seq![']']
            } else {
                name
            };
            let target = named + seq![':'] + text::decimal(port as nat);
            &&& next == ConnectionView::Http(ExchangeView::Request)
            &&& action == ActionView::<Seq<char>>::Send(
                encode_utf8(
                    "CONNECT "@ + target + " HTTP/1.1\r\nHost: "@ + target + "\r\n"@
                        + "User-Agent: Mozilla/5.0\r\nProxy-Connection: Keep-Alive\r\n"@ + (
                    if username.len() == 0 && password.len() == 0 {
                        seq![]
                    } else {
                        "Proxy-Authorization: Basic "@ + encoding::base64_text(
                            encode_utf8(username + seq![':'] + password),
                        ) + "\r\n"@
                    }) + "\r\n"@,
                ),
            )
            &&& reading::host_and_port(target) == Some((named, port))
            &&& http::unbroken(host) ==> http::reads_as_request(
                decode_utf8(action->Send_0),
                target,
                username,
                password,
            )
        }),
{
    reveal_strlit(":");
    reveal_strlit("[");
    reveal_strlit("]");
    let bare = bare_host(host);
    let named = uri_host(bare);
    let target = probe_target(host, port);
    let n = name.len() as int;
    assert forall|i: int| 0 <= i < n implies bare[i] != '%' by {
        assert(bare[i] == name[i]);
    }
    text::lemma_position_is(bare, '%', n);
    assert(text::before(bare, '%') =~= name);
    assert(target =~= named + seq![':'] + text::decimal(port as nat));
    assert("["@ + name + "]"@ =~= seq!['['] + name + seq![']']);
    http::law_target_is_read_back(named, port);
    http::law_request_letter_by_letter(Purpose::Probe, target, username, password);
    let request = probe_request(host, port, username, password);
    encode_utf8_decode_utf8(request);
    if http::unbroken(host) {
        lemma_unbroken_target(host, port);
        http::lemma_reads_as_request(Purpose::Probe, target, username, password);
    }
    let plain = "CONNECT "@ + target + " HTTP/1.1\r\nHost: "@ + target + "\r\n"@
        + "User-Agent: Mozilla/5.0\r\nProxy-Connection: Keep-Alive\r\n"@;
    assert(plain + Seq::<char>::empty() =~= plain);
}

proof fn lemma_unbroken_target(host: Seq<char>, port: u16)
    requires
        http::unbroken(host),
    ensures
        http::unbroken(probe_target(host, port)),
{
    reveal_strlit("[");
    reveal_strlit("]");
    let inner = text::trimmed_start(host, '[');
    let bare = bare_host(host);
    let name = text::before(bare, '%');
    let named = uri_host(bare);
    text::law_trimming_the_start(host, '[');
    text::law_trimming_the_end(inner, ']');
    text::lemma_position(bare, '%');
    let m = host.len() - inner.len();
    assert forall|i: int| 0 <= i < name.len() implies name[i] == host[m + i] by {
        assert(bare[i] == inner[i]);
    }
    assert forall|i: int| 0 <= i < named.len() implies #[trigger] named[i] != '\r' && named[i]
        != '\n' by {
        if name.contains(':') {
            if 0 < i < named.len() - 1 {
                assert(named[i] == name[i - 1]);
            }
        } else {
            assert(named[i] == name[i]);
        }
    }
    http::lemma_unbroken_authority(named, port);
}

/// Probes of HTTP proxies with different ports, or with different credentials,
/// send different requests.
pub proof fn law_requests_tell_probes_apart(
    host: Seq<char>,
    port: u16,
    username: Seq<char>,
    password: Seq<char>,
    other_host: Seq<char>,
    other_port: u16,
    other_username: Seq<char>,
    other_password: Seq<char>,
    elapsed: Seq<char>,
)
    requires
        http::unbroken(host),
        http::unbroken(other_host),
        probe_step(
            ConnectionView::Connecting,
            probed(ProxyType::Http, host, port, username, password),
            probe_request(host, port, username, password),
            elapsed,
            EventView::Connected,
        ) == probe_step(
            ConnectionView::Connecting,
            probed(ProxyType::Http, other_host, other_port, other_username, other_password),
            probe_request(other_host, other_port, other_username, other_password),
            elapsed,
            EventView::Connected,
        ),
    ensures
        port == other_port,
        username + seq![':'] + password == other_username + seq![':'] + other_password,
        !username.contains(':') && !other_username.contains(':') ==> username == other_username
            && password == other_password,
{
    let bare = bare_host(host);
    let other_bare = bare_host(other_host);
    let (name, zone) = (text::before(bare, '%'), text::after(bare, '%'));
    let (other_name, other_zone) = (text::before(other_bare, '%'), text::after(other_bare, '%'));
    text::law_parts_make_up_the_text(bare, '%');
    text::law_parts_make_up_the_text(other_bare, '%');
    law_probe_asks_for_the_proxy_itself(host, port, username, password, elapsed, name, zone);
    law_probe_asks_for_the_proxy_itself(
        other_host,
        other_port,
        other_username,
        other_password,
        elapsed,
        other_name,
        other_zone,
    );
    let named = if name.contains(':') {
        seq!['['] + name + seq![']']
    } else {
        name
    };
    let other_named = if other_name.contains(':') {
        seq!['['] + other_name + seq![']']
    } else {
        other_name
    };
    let one = named + seq![':'] + text::decimal(port as nat);
    let two = other_named + seq![':'] + text::decimal(other_port as nat);
    let line = "CONNECT "@ + one + " HTTP/1.1"@;
    let other_line = "CONNECT "@ + two + " HTTP/1.1"@;
    reveal_strlit("CONNECT ");
    reveal_strlit(" HTTP/1.1");
    assert(line == other_line);
    assert(one =~= line.subrange(8, line.len() - 9));
    assert(two =~= other_line.subrange(8, other_line.len() - 9));
    let pair = username + seq![':'] + password;
    let other_pair = other_username + seq![':'] + other_password;
    encode_utf8_decode_utf8(pair);
    encode_utf8_decode_utf8(other_pair);
    if username.len() == 0 && password.len() == 0 {
        assert(pair =~= other_pair);
    }
    if !username.contains(':') && !other_username.contains(':') {
        let m = username.len() as int;
        let n = other_username.len() as int;
        assert(pair[m] == ':' && other_pair[n] == ':');
        if m < n {
            assert(other_pair[m] == other_username[m]);
        } else if n < m {
            assert(pair[n] == username[n]);
        }
        assert(username =~= pair.take(m) && other_username =~= other_pair.take(n));
        assert(password =~= pair.skip(m + 1) && other_password =~= other_pair.skip(n + 1));
    }
}

/// A SOCKS5 proxy that asks for credentials is sent those given to the probe,
/// and one that lets the probe in is asked to connect to itself: to the host
/// without its brackets, with its zone, and to the port given.
pub proof fn law_probe_presents_the_credentials_given(
    host: Seq<char>,
    port: u16,
    username: Seq<char>,
    password: Seq<char>,
    request: Seq<char>,
    elapsed: Seq<char>,
)
    ensures
        ({
            let proxy = probed(ProxyType::Socks5, host, port, username, password);
            let user = encode_utf8(username);
            let pass = encode_utf8(password);
            let name = encode_utf8(bare_host(host));
            let first = probe_step(
                ConnectionView::Connecting,
                proxy,
                request,
                elapsed,
                EventView::Connected,
            );
            let login = probe_step(
                ConnectionView::Socks5(Socks5Phase::Method),
                proxy,
                request,
                elapsed,
                EventView::Received(seq![5u8, 2u8]),
            );
            let open = probe_step(
                ConnectionView::Socks5(Socks5Phase::Method),
                proxy,
                request,
                elapsed,
                EventView::Received(seq![5u8, 0u8]),
            );
            let known = probe_step(
                ConnectionView::Socks5(Socks5Phase::Verdict),
                proxy,
                request,
                elapsed,
                EventView::Received(seq![1u8, 0u8]),
            );
            &&& first.0 == ConnectionView::Socks5(Socks5Phase::Greeting)
            &&& first.1 matches ActionView::Send(message)
            &&& reading::methods_offered(message) == Some(
                if username.len() == 0 && password.len() == 0 {
                    seq![0u8]
                } else {
                    seq![0u8, 2u8]
                },
            )
            &&& user.len() <= 255 && pass.len() <= 255 ==> {
                &&& login.0 == ConnectionView::Socks5(Socks5Phase::Credentials)
                &&& login.1 matches ActionView::Send(carried)
                &&& reading::credentials_carried(carried) == Some((user, pass))
            }
            &&& known == open
            &&& name.len() <= 255 ==> {
                &&& open.0 == ConnectionView::Socks5(Socks5Phase::Request)
                &&& open.1 matches ActionView::Send(asked)
                &&& reading::destination(asked) == Some((name, port as int))
            }
        }),
{
    let proxy = probed(ProxyType::Socks5, host, port, username, password);
    socks5::law_proxy_is_sent_what_it_is_due(
        Purpose::Probe,
        proxy,
        RemoteView { host: proxy.host, port: proxy.port },
    );
}

/// A probe in its handshake takes the steps of that handshake with the endpoint
/// given, and reports how it ends: an HTTP proxy by the verdict on its
/// response, a SOCKS5 proxy as working, and a failure with the time and the
/// reason.
pub proof fn law_probe_reports_its_handshake(
    exchange: ExchangeView,
    phase: Socks5Phase,
    proxy_type: ProxyType,
    host: Seq<char>,
    port: u16,
    username: Seq<char>,
    password: Seq<char>,
    request: Seq<char>,
    elapsed: Seq<char>,
    event: EventView,
)
    requires
        !(event is TimedOut),
    ensures
        ({
            let proxy = probed(proxy_type, host, port, username, password);
            let (next, action) = probe_step(
                ConnectionView::Http(exchange),
                proxy,
                request,
                elapsed,
                event,
            );
            let (read, asked) = http::exchange_step(exchange, Purpose::Probe, request, event);
            &&& next == ConnectionView::Http(read)
            &&& asked matches ActionView::Send(message) ==> action == ActionView::<
                Seq<char>,
            >::Send(message)
            &&& asked is ReceiveByte ==> action is ReceiveByte
            &&& asked matches ActionView::Finish(result) ==> action == ActionView::Finish(
                match result {
                    Ok(response) => match http::probe_verdict(encoding::utf8_lossy(response)) {
                        Ok(message) => Ok::<Seq<char>, Seq<char>>(message),
                        Err(reason) => Err(
                            "Proxy handshake failed ("@ + elapsed + "): "@ + reason,
                        ),
                    },
                    Err(reason) => Err("Proxy handshake failed ("@ + elapsed + "): "@ + reason),
                },
            )
        }),
        ({
            let proxy = ProxyView {
                proxy_type,
                host: bare_host(host),
                port,
                username,
                password,
            };
            let itself = RemoteView { host: bare_host(host), port };
            let (next, action) = probe_step(
                ConnectionView::Socks5(phase),
                probed(proxy_type, host, port, username, password),
                request,
                elapsed,
                event,
            );
            let (later, asked) = socks5::socks5_step(phase, Purpose::Probe, proxy, itself, event);
            &&& next == ConnectionView::Socks5(later)
            &&& asked matches ActionView::Send(message) ==> action == ActionView::<
                Seq<char>,
            >::Send(message)
            &&& asked matches ActionView::Receive(count) ==> action == ActionView::<
                Seq<char>,
            >::Receive(count)
            &&& asked matches ActionView::Finish(result) ==> action == ActionView::Finish(
                match result {
                    Ok(_) => Ok::<Seq<char>, Seq<char>>("SOCKS5 proxy connection successful"@),
                    Err(reason) => Err("Proxy handshake failed ("@ + elapsed + "): "@ + reason),
                },
            )
        }),
{
}

/// A probe that does not reach its proxy, or runs out of time, says so, with
/// the ten seconds that it had.
pub proof fn law_probe_out_of_reach_or_time(
    connection: ConnectionView,
    proxy: ProxyView,
    request: Seq<char>,
    elapsed: Seq<char>,
    reason: Seq<char>,
)
    requires
        is_handshaking(connection),
    ensures
        probe_step(ConnectionView::Connecting, proxy, request, elapsed, EventView::TimedOut) == (
            ConnectionView::Closed,
            ActionView::<Seq<char>>::Finish(Err("Proxy connection timed out (10s)"@)),
        ),
        probe_step(
            ConnectionView::Connecting,
            proxy,
            request,
            elapsed,
            EventView::Failed(reason),
        ) == (
            ConnectionView::Closed,
            ActionView::<Seq<char>>::Finish(Err("Failed to connect to proxy: "@ + reason)),
        ),
        probe_step(connection, proxy, request, elapsed, EventView::TimedOut) == (
            ConnectionView::Closed,
            ActionView::<Seq<char>>::Finish(Err("Proxy handshake timed out (10s)"@)),
        ),
{
    reveal_strlit("s");
    reveal_strlit(")");
    reveal_strlit("Proxy connection timed out (");
    reveal_strlit("Proxy connection timed out (10s)");
    reveal_strlit("Proxy handshake timed out (");
    reveal_strlit("Proxy handshake timed out (10s)");
    reveal_with_fuel(text::decimal, 3);
    assert(allowance() =~= seq!['1', '0', 's']);
    assert("Proxy connection timed out ("@ + allowance() + ")"@
        =~= "Proxy connection timed out (10s)"@);
    assert("Proxy handshake timed out ("@ + allowance() + ")"@
        =~= "Proxy handshake timed out (10s)"@);
}

/// Time may run out for a probe whenever it connects or is in a handshake, and
/// at no other time; any other event answers it as it answers its connection.
pub proof fn law_probe_answers(connection: ConnectionView, event: EventView)
    ensures
        event is TimedOut ==> (is_probe_answer(connection, event) <==> !(connection is Start)
            && !(connection.awaits() is Nothing)),
        !(event is TimedOut) ==> (is_probe_answer(connection, event) <==> wire::is_answer(
            connection.awaits(),
            event,
        )),
{
}

} // verus!
