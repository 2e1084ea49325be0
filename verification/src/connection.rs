//! Connecting to a remote host through a proxy.

use crate::encoding;
use crate::endpoint::{ProxyEndpoint, ProxyType, ProxyView, Purpose, RemoteEndpoint, RemoteView};
use crate::http;
use crate::http::{ExchangeView, HttpExchange};
use crate::socks5;
use crate::socks5::Socks5Phase;
use crate::text;
use crate::wire;
use crate::wire::{Action, ActionView, Awaiting, Course, Event, EventView};
use vstd::prelude::*;
use vstd::utf8::*;

verus! {

/// How long connecting to a proxy may take, in seconds. A probe allows as long
/// again for its handshake.
pub const CONNECT_TIMEOUT_SECS: u64 = 10;

/// Where a connection through a proxy stands.
#[derive(Debug, PartialEq, Eq)]
pub enum Connection {
    /// Nothing was done yet.
    Start,
    /// The connection to the proxy is being made.
    Connecting,
    /// The HTTP handshake stands here.
    Http(HttpExchange),
    /// The SOCKS5 handshake stands here.
    Socks5(Socks5Phase),
    /// It is over.
    Closed,
}

/// The model of a [`Connection`].
pub enum ConnectionView {
    Start,
    Connecting,
    Http(ExchangeView),
    Socks5(Socks5Phase),
    Closed,
}

impl View for Connection {
    type V = ConnectionView;

    open spec fn view(&self) -> ConnectionView {
        match *self {
            Connection::Start => ConnectionView::Start,
            Connection::Connecting => ConnectionView::Connecting,
            Connection::Http(exchange) => ConnectionView::Http(exchange@),
            Connection::Socks5(phase) => ConnectionView::Socks5(phase),
            Connection::Closed => ConnectionView::Closed,
        }
    }
}

impl ConnectionView {
    /// The answer that the connection waits for.
    pub open spec fn awaits(self) -> Awaiting {
        match self {
            ConnectionView::Start => Awaiting::Start,
            ConnectionView::Connecting => Awaiting::Connection,
            ConnectionView::Http(exchange) => exchange.awaits(),
            ConnectionView::Socks5(phase) => socks5::phase_awaits(phase),
            ConnectionView::Closed => Awaiting::Nothing,
        }
    }
}

impl Connection {
    /// The answer that the connection waits for.
    pub fn awaits(&self) -> (awaiting: Awaiting)
        ensures
            awaiting == self@.awaits(),
    {
        match self {
            Connection::Start => Awaiting::Start,
            Connection::Connecting => Awaiting::Connection,
            Connection::Http(exchange) => exchange.awaits(),
            Connection::Socks5(phase) => phase.awaits(),
            Connection::Closed => Awaiting::Nothing,
        }
    }
}

/// Whether the step on `event` writes an HTTP request, and so a token.
pub open spec fn writes_token(
    connection: ConnectionView,
    proxy_type: ProxyType,
    event: EventView,
) -> bool {
    match connection {
        ConnectionView::Connecting => event is Connected && proxy_type is Http,
        ConnectionView::Http(exchange) => exchange is Start,
        _ => false,
    }
}

/// The step of a tunnel's HTTP handshake.
pub open spec fn http_tunnel_step(
    exchange: ExchangeView,
    proxy: ProxyView,
    remote: RemoteView,
    event: EventView,
) -> (ConnectionView, ActionView<()>) {
    let (next, action) = http::http_connect_step(exchange, proxy, remote, event);
    (ConnectionView::Http(next), action)
}

/// The step of a tunnel's SOCKS5 handshake.
pub open spec fn socks5_tunnel_step(
    phase: Socks5Phase,
    proxy: ProxyView,
    remote: RemoteView,
    event: EventView,
) -> (ConnectionView, ActionView<()>) {
    let (next, action) = socks5::socks5_step(phase, Purpose::Tunnel, proxy, remote, event);
    (ConnectionView::Socks5(next), action)
}

/// The step of connecting to `remote` through `proxy`: a connection to the
/// proxy, then the handshake of the protocol that it speaks.
pub open spec fn tunnel_step(
    connection: ConnectionView,
    proxy: ProxyView,
    remote: RemoteView,
    event: EventView,
) -> (ConnectionView, ActionView<()>) {
    match (connection, event) {
        (ConnectionView::Start, EventView::Started) => (
            ConnectionView::Connecting,
            ActionView::Connect { host: proxy.host, port: proxy.port },
        ),
        (ConnectionView::Connecting, EventView::Connected) => match proxy.proxy_type {
            ProxyType::Http => http_tunnel_step(
                ExchangeView::Start,
                proxy,
                remote,
                EventView::Started,
            ),
            ProxyType::Socks5 => socks5_tunnel_step(
                Socks5Phase::Start,
                proxy,
                remote,
                EventView::Started,
            ),
        },
        (ConnectionView::Connecting, EventView::TimedOut) => (
            ConnectionView::Closed,
            ActionView::Finish(Err("Proxy connection timed out"@)),
        ),
        (ConnectionView::Connecting, EventView::Failed(reason)) => (
            ConnectionView::Closed,
            ActionView::Finish(Err("Failed to connect proxy: "@ + reason)),
        ),
        (ConnectionView::Http(exchange), _) => http_tunnel_step(exchange, proxy, remote, event),
        (ConnectionView::Socks5(phase), _) => socks5_tunnel_step(phase, proxy, remote, event),
        _ => arbitrary(),
    }
}

/// Takes the next step of connecting to `remote` through `proxy`. The first
/// step answers [`Event::Started`].
pub fn connect_via_proxy(
    connection: Connection,
    proxy: &ProxyEndpoint,
    remote: &RemoteEndpoint,
    event: Event,
) -> (next: (Connection, Action<()>))
    requires
        wire::is_answer(connection@.awaits(), event@),
        writes_token(connection@, proxy@.proxy_type, event@) ==> http::token_fits(
            proxy@.username,
            proxy@.password,
        ),
    ensures
        (next.0@, next.1@) == tunnel_step(connection@, proxy@, remote@, event@),
        next.0@.awaits() == wire::awaited_by(next.1@),
        connection@ is Start ==> next.1@ == (ActionView::<()>::Connect {
            host: proxy@.host,
            port: proxy@.port,
        }),
        connection@ is Connecting && event@ is Connected && proxy@.proxy_type is Http ==> (
        next.1@ matches ActionView::Send(bytes) && (http::unbroken(remote@.host)
            ==> http::reads_as_request(
            decode_utf8(bytes),
            remote@.host + seq![':'] + text::decimal(remote@.port as nat),
            proxy@.username,
            proxy@.password,
        ))),
        connection@ matches ConnectionView::Http(exchange) ==> (http::exchange_step(
            exchange,
            Purpose::Tunnel,
            http::tunnel_request(proxy@, remote@),
            event@,
        ).1 matches ActionView::Finish(Ok(response)) ==> http::is_tunnel_judgement(
            response,
            next.1@,
        )),
{
    match (connection, event) {
        (Connection::Start, _) => (
            Connection::Connecting,
            Action::Connect { host: proxy.host.clone(), port: proxy.port },
        ),
        (Connection::Connecting, Event::Connected) => match proxy.proxy_type {
            ProxyType::Http => {
                let (next, action) = http::http_connect(
                    HttpExchange::Start,
                    proxy,
                    remote,
                    Event::Started,
                );
                (Connection::Http(next), action)
            },
            ProxyType::Socks5 => {
                let (next, action) = socks5::socks5_connect(
                    Socks5Phase::Start,
                    Purpose::Tunnel,
                    proxy,
                    remote,
                    Event::Started,
                );
                (Connection::Socks5(next), action)
            },
        },
        (Connection::Connecting, Event::TimedOut) => (
            Connection::Closed,
            Action::Finish(Err("Proxy connection timed out".to_owned())),
        ),
        (Connection::Connecting, Event::Failed(reason)) => (
            Connection::Closed,
            Action::Finish(Err(text::prefixed("Failed to connect proxy: ", reason.as_str()))),
        ),
        (Connection::Http(exchange), event) => {
            let (next, action) = http::http_connect(exchange, proxy, remote, event);
            (Connection::Http(next), action)
        },
        (Connection::Socks5(phase), event) => {
            let (next, action) = socks5::socks5_connect(
                phase,
                Purpose::Tunnel,
                proxy,
                remote,
                event,
            );
            (Connection::Socks5(next), action)
        },
        _ => unreached(),
    }
}

// ---------------------------------------------------------------------------
// Forwarding
// ---------------------------------------------------------------------------

/// What came of waiting for a client.
#[derive(Clone, Copy, Debug, PartialEq, Eq, Structural)]
pub enum Accepting {
    /// A client connected.
    Accepted,
    /// The listener failed.
    Failed,
}

/// What the forwarding of a tunnel does next.
#[derive(Debug)]
pub enum Forwarding {
    /// Connect to the remote host for the client, and go on accepting.
    Serve { proxy: ProxyEndpoint, remote: RemoteEndpoint },
    /// Accept no more clients.
    Stop,
}

/// The model of a [`Forwarding`].
pub enum ForwardingView {
    Serve { proxy: ProxyView, remote: RemoteView },
    Stop,
}

impl View for Forwarding {
    type V = ForwardingView;

    open spec fn view(&self) -> ForwardingView {
        match *self {
            Forwarding::Serve { proxy, remote } => ForwardingView::Serve {
                proxy: proxy@,
                remote: remote@,
            },
            Forwarding::Stop => ForwardingView::Stop,
        }
    }
}

/// What follows in the loop that forwards the clients of a tunnel.
pub open spec fn forwarding_step(
    event: Accepting,
    proxy: ProxyView,
    remote: RemoteView,
) -> ForwardingView {
    match event {
        Accepting::Accepted => ForwardingView::Serve { proxy, remote },
        Accepting::Failed => ForwardingView::Stop,
    }
}

/// What becomes of a client whose connection came to `result`.
pub open spec fn relaying_after(result: Result<(), Seq<char>>) -> Relaying {
    match result {
        Ok(_) => Relaying::Relay,
        Err(_) => Relaying::Drop,
    }
}

/// Decides what follows in the loop that forwards the clients of a tunnel: each
/// client gets a connection of its own to the same remote host through the same
/// proxy, until the listener fails.
pub fn proxy_forward_loop(
    event: Accepting,
    proxy: &ProxyEndpoint,
    remote: &RemoteEndpoint,
) -> (next: Forwarding)
    ensures
        match event {
            Accepting::Accepted => next matches Forwarding::Serve { proxy: through, remote: to }
                && through@ == proxy@ && to@ == remote@,
            Accepting::Failed => next is Stop,
        },
        next@ == forwarding_step(event, proxy@, remote@),
{
    match event {
        Accepting::Accepted => Forwarding::Serve { proxy: proxy.clone(), remote: remote.clone() },
        Accepting::Failed => Forwarding::Stop,
    }
}

/// What becomes of a client once connecting for it is over.
#[derive(Clone, Copy, Debug, PartialEq, Eq, Structural)]
pub enum Relaying {
    /// Copy bytes both ways between the client and the remote host.
    Relay,
    /// Close the client's connection; the others go on.
    Drop,
}

/// Decides what becomes of a client, by the result of connecting for it: its
/// bytes are relayed exactly when the connection stands.
pub fn client_connected(result: &Result<(), String>) -> (next: Relaying)
    ensures
        next is Relay <==> result is Ok,
        next is Drop <==> result is Err,
        next == relaying_after(wire::result_view(*result)),
{
    match result {
        Ok(_) => Relaying::Relay,
        Err(_) => Relaying::Drop,
    }
}

// ---------------------------------------------------------------------------
// Laws
// ---------------------------------------------------------------------------

/// Whether the handshake, once begun, is that of `proxy_type`.
pub open spec fn speaks(connection: ConnectionView, proxy_type: ProxyType) -> bool {
    match connection {
        ConnectionView::Http(_) => proxy_type is Http,
        ConnectionView::Socks5(_) => proxy_type is Socks5,
        _ => true,
    }
}

/// A connection speaks the protocol of its proxy from the first step to the
/// last.
pub proof fn law_protocol_is_kept(
    connection: ConnectionView,
    proxy: ProxyView,
    remote: RemoteView,
    event: EventView,
)
    requires
        wire::is_answer(connection.awaits(), event),
        speaks(connection, proxy.proxy_type),
    ensures
        speaks(tunnel_step(connection, proxy, remote, event).0, proxy.proxy_type),
{
}

/// Whatever the connection waits for, a failure ends it with an error that
/// gives the reason last.
pub proof fn law_failure_ends_the_connection(
    connection: ConnectionView,
    proxy: ProxyView,
    remote: RemoteView,
    reason: Seq<char>,
)
    requires
        wire::is_answer(connection.awaits(), EventView::Failed(reason)),
    ensures
        tunnel_step(connection, proxy, remote, EventView::Failed(reason)).1 matches
            ActionView::Finish(Err(message)) && reason.is_suffix_of(message),
{
    match connection {
        ConnectionView::Connecting => {
            lemma_ends_with("Failed to connect proxy: "@, reason);
        },
        ConnectionView::Http(_) => {
            lemma_ends_with("Failed to send CONNECT request: "@, reason);
            lemma_ends_with("Failed to read CONNECT response: "@, reason);
        },
        ConnectionView::Socks5(phase) => {
            lemma_ends_with(socks5::fault_context(phase), reason);
        },
        _ => {},
    }
}

proof fn lemma_ends_with(prefix: Seq<char>, reason: Seq<char>)
    ensures
        reason.is_suffix_of(prefix + reason),
{
    let whole = prefix + reason;
    assert(whole.subrange(whole.len() - reason.len(), whole.len() as int) =~= reason);
}

/// How many stages of a connection may still follow.
pub open spec fn stages_left(connection: ConnectionView) -> nat {
    match connection {
        ConnectionView::Start => 11,
        ConnectionView::Connecting => 10,
        ConnectionView::Http(exchange) => http::stages_left(exchange),
        ConnectionView::Socks5(phase) => socks5::phases_left(phase),
        ConnectionView::Closed => 0,
    }
}

/// The course of connecting through a proxy that is there, takes all it is sent
/// and answers with `stream`.
pub open spec fn tunnel_course(
    connection: ConnectionView,
    proxy: ProxyView,
    remote: RemoteView,
    stream: Seq<u8>,
    end: Seq<char>,
) -> Course<()>
    decreases stream.len(), stages_left(connection),
{
    let awaiting = connection.awaits();
    let (next, action) = tunnel_step(
        connection,
        proxy,
        remote,
        wire::heard(awaiting, stream, end),
    );
    let rest = wire::left_unread(awaiting, stream);
    let later = if rest.len() < stream.len() || rest.len() == stream.len() && stages_left(next)
        < stages_left(connection) {
        tunnel_course(next, proxy, remote, rest, end)
    } else {
        arbitrary()
    };
    wire::continued(action, rest, later)
}

proof fn lemma_course_through_http(
    exchange: ExchangeView,
    proxy: ProxyView,
    remote: RemoteView,
    stream: Seq<u8>,
    end: Seq<char>,
)
    requires
        !(exchange is Closed),
    ensures
        tunnel_course(ConnectionView::Http(exchange), proxy, remote, stream, end) == wire::judged(
            http::exchange_course(
                exchange,
                Purpose::Tunnel,
                http::tunnel_request(proxy, remote),
                stream,
                end,
            ),
            |response: Seq<u8>| http::tunnel_verdict(encoding::utf8_lossy(response)),
        ),
    decreases stream.len(), http::stages_left(exchange),
{
    let request = http::tunnel_request(proxy, remote);
    let event = wire::heard(exchange.awaits(), stream, end);
    let (next, action) = http::exchange_step(exchange, Purpose::Tunnel, request, event);
    let rest = wire::left_unread(exchange.awaits(), stream);
    if !(action is Finish) {
        lemma_course_through_http(next, proxy, remote, rest, end);
    }
}

proof fn lemma_course_through_socks5(
    phase: Socks5Phase,
    proxy: ProxyView,
    remote: RemoteView,
    stream: Seq<u8>,
    end: Seq<char>,
)
    requires
        !(phase is Closed),
    ensures
        tunnel_course(ConnectionView::Socks5(phase), proxy, remote, stream, end)
            == socks5::socks5_course(phase, Purpose::Tunnel, proxy, remote, stream, end),
    decreases socks5::phases_left(phase),
{
    let event = wire::heard(socks5::phase_awaits(phase), stream, end);
    let (next, action) = socks5::socks5_step(phase, Purpose::Tunnel, proxy, remote, event);
    let rest = wire::left_unread(socks5::phase_awaits(phase), stream);
    socks5::law_conversation_ends(phase, Purpose::Tunnel, proxy, remote, event);
    if !(action is Finish) {
        lemma_course_through_socks5(next, proxy, remote, rest, end);
    }
}

/// A tunnel through an HTTP proxy: one request is sent, one response is read
/// and judged, and every byte after the response is left to the tunnel. The
/// tunnel stands exactly when the proxy's bytes begin with an accepted status
/// line; the premise of that on lossy text is given by the last step.
pub proof fn law_tunnel_through_http(
    proxy: ProxyView,
    remote: RemoteView,
    stream: Seq<u8>,
    end: Seq<char>,
)
    requires
        proxy.proxy_type is Http,
    ensures
        ({
            let course = tunnel_course(ConnectionView::Start, proxy, remote, stream, end);
            let response = stream.take(stream.len() - course.rest.len());
            let text = encoding::utf8_lossy(response);
            &&& course.dialled == seq![(proxy.host, proxy.port)]
            &&& course.sent == seq![encode_utf8(http::tunnel_request(proxy, remote))]
            &&& http::is_response_of(response, stream, http::RESPONSE_LIMIT as nat)
            &&& response + course.rest == stream
            &&& course.result == http::tunnel_verdict(text)
            &&& encoding::lossy_text_of(response, text) ==> {
                &&& http::is_tunnel_verdict(response, course.result)
                &&& course.result is Ok <==> http::ascii("HTTP/1.1 200"@).is_prefix_of(stream)
                    || http::ascii("HTTP/1.0 200"@).is_prefix_of(stream)
            }
        }),
{
    let request = http::tunnel_request(proxy, remote);
    let course = tunnel_course(ConnectionView::Start, proxy, remote, stream, end);
    let connected = tunnel_course(ConnectionView::Connecting, proxy, remote, stream, end);
    assert(course.result == connected.result && course.sent == connected.sent && course.rest
        == connected.rest);
    let exchange = http::exchange_course(
        ExchangeView::Start,
        Purpose::Tunnel,
        request,
        stream,
        end,
    );
    http::law_exchange_reads_the_response_only(Purpose::Tunnel, request, stream, end);
    lemma_course_through_http(ExchangeView::Request, proxy, remote, stream, end);
    let response = exchange.result->Ok_0;
    assert(stream.take(stream.len() - exchange.rest.len()) =~= response);
    if encoding::lossy_text_of(response, encoding::utf8_lossy(response)) {
        http::lemma_tunnel_verdict(response, encoding::utf8_lossy(response));
        http::law_first_bytes_decide_the_tunnel(response, stream);
    }
}

/// A tunnel through a SOCKS5 proxy stands exactly when the proxy lets the
/// client in and grants the request. It then has sent the messages of the
/// conversation, and every byte after the reply is left to the tunnel.
pub proof fn law_tunnel_through_socks5(
    proxy: ProxyView,
    remote: RemoteView,
    stream: Seq<u8>,
    end: Seq<char>,
)
    requires
        proxy.proxy_type is Socks5,
    ensures
        ({
            let course = tunnel_course(ConnectionView::Start, proxy, remote, stream, end);
            let start = socks5::reply_start(stream);
            &&& course.dialled == seq![(proxy.host, proxy.port)]
            &&& course.result == socks5::socks5_course(
                Socks5Phase::Start,
                Purpose::Tunnel,
                proxy,
                remote,
                stream,
                end,
            ).result
            &&& course.result is Ok <==> socks5::establishes(proxy, remote, stream)
            &&& course.result is Ok ==> {
                &&& course.sent == socks5::messages(proxy, remote, stream)
                &&& course.rest == stream.skip(start + socks5::reply_len(stream.skip(start)))
            }
        }),
{
    let course = tunnel_course(ConnectionView::Start, proxy, remote, stream, end);
    let connected = tunnel_course(ConnectionView::Connecting, proxy, remote, stream, end);
    assert(course.result == connected.result && course.sent == connected.sent && course.rest
        == connected.rest);
    socks5::law_conversation_succeeds_iff_established(
        Purpose::Tunnel,
        proxy,
        remote,
        stream,
        end,
    );
    lemma_course_through_socks5(Socks5Phase::Start, proxy, remote, stream, end);
    socks5::law_conversation_dials_no_one(
        Socks5Phase::Start,
        Purpose::Tunnel,
        proxy,
        remote,
        stream,
        end,
    );
    assert(connected == tunnel_course(
        ConnectionView::Socks5(Socks5Phase::Start),
        proxy,
        remote,
        stream,
        end,
    ));
}

/// The first action is to connect to the proxy: to its host and to its port.
pub proof fn law_proxy_is_dialled(proxy: ProxyView, remote: RemoteView)
    ensures
        tunnel_step(ConnectionView::Start, proxy, remote, EventView::Started) == (
            ConnectionView::Connecting,
            ActionView::<()>::Connect { host: proxy.host, port: proxy.port },
        ),
{
}

/// A proxy that is not reached ends the connection, with a word on why.
pub proof fn law_proxy_not_reached(proxy: ProxyView, remote: RemoteView, reason: Seq<char>)
    ensures
        tunnel_step(ConnectionView::Connecting, proxy, remote, EventView::TimedOut) == (
            ConnectionView::Closed,
            ActionView::<()>::Finish(Err("Proxy connection timed out"@)),
        ),
        tunnel_step(ConnectionView::Connecting, proxy, remote, EventView::Failed(reason)) == (
            ConnectionView::Closed,
            ActionView::<()>::Finish(Err("Failed to connect proxy: "@ + reason)),
        ),
{
}

/// Once connected, a tunnel takes the first step of the handshake that its
/// proxy speaks, and from there on the steps of that handshake.
pub proof fn law_handshake_is_that_of_the_proxy(
    proxy: ProxyView,
    remote: RemoteView,
    exchange: ExchangeView,
    phase: Socks5Phase,
    event: EventView,
)
    ensures
        proxy.proxy_type is Http ==> {
            let step = tunnel_step(
                ConnectionView::Connecting,
                proxy,
                remote,
                EventView::Connected,
            );
            let first = http::http_connect_step(
                ExchangeView::Start,
                proxy,
                remote,
                EventView::Started,
            );
            step == (ConnectionView::Http(first.0), first.1)
        },
        proxy.proxy_type is Socks5 ==> {
            let step = tunnel_step(
                ConnectionView::Connecting,
                proxy,
                remote,
                EventView::Connected,
            );
            let first = socks5::socks5_step(
                Socks5Phase::Start,
                Purpose::Tunnel,
                proxy,
                remote,
                EventView::Started,
            );
            step == (ConnectionView::Socks5(first.0), first.1)
        },
        ({
            let step = tunnel_step(ConnectionView::Http(exchange), proxy, remote, event);
            let inner = http::http_connect_step(exchange, proxy, remote, event);
            step == (ConnectionView::Http(inner.0), inner.1)
        }),
        ({
            let step = tunnel_step(ConnectionView::Socks5(phase), proxy, remote, event);
            let inner = socks5::socks5_step(phase, Purpose::Tunnel, proxy, remote, event);
            step == (ConnectionView::Socks5(inner.0), inner.1)
        }),
{
}

/// Every client of a tunnel is served alike: its connection goes to the remote
/// host and port of the tunnel, through its proxy, which is dialled for it. It
/// is relayed exactly when that connection comes about. Only a listener that
/// fails ends the loop.
pub proof fn law_every_client_is_served_alike(
    event: Accepting,
    proxy: ProxyView,
    remote: RemoteView,
    stream: Seq<u8>,
    end: Seq<char>,
)
    ensures
        event is Failed <==> forwarding_step(event, proxy, remote) is Stop,
        event is Accepted ==> forwarding_step(event, proxy, remote) == (ForwardingView::Serve {
            proxy,
            remote,
        }),
        forwarding_step(event, proxy, remote) matches ForwardingView::Serve {
            proxy: through,
            remote: to,
        } ==> {
            let course = tunnel_course(ConnectionView::Start, through, to, stream, end);
            &&& course.dialled == seq![(proxy.host, proxy.port)]
            &&& relaying_after(course.result) is Relay <==> course.result is Ok
        },
{
    match proxy.proxy_type {
        ProxyType::Http => law_tunnel_through_http(proxy, remote, stream, end),
        ProxyType::Socks5 => law_tunnel_through_socks5(proxy, remote, stream, end),
    }
}

} // verus!
