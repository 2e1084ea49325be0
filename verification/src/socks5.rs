//! SOCKS5: the messages and the conversation around them.

use crate::endpoint::{ProxyEndpoint, ProxyView, Purpose, RemoteEndpoint, RemoteView};
use crate::reading;
use crate::text;
use crate::wire;
use crate::wire::{Action, ActionView, Awaiting, Course, Event, EventView};
use vstd::prelude::*;
use vstd::utf8::*;

verus! {

// ---------------------------------------------------------------------------
// The messages
// ---------------------------------------------------------------------------

/// The greeting: it offers no authentication, and a username and password too
/// when there are credentials.
pub open spec fn greeting(wants_auth: bool) -> Seq<u8> {
    if wants_auth {
        seq![5u8, 2u8, 0u8, 2u8]
    } else {
        seq![5u8, 1u8, 0u8]
    }
}

/// The message that carries the credentials: each with its length before it.
pub open spec fn auth_message(username: Seq<u8>, password: Seq<u8>) -> Seq<u8> {
    seq![1u8, username.len() as u8] + username + seq![password.len() as u8] + password
}

/// The request to connect to the domain name `host`, whose length stands
/// before it; the port follows in network byte order.
pub open spec fn connect_message(host: Seq<u8>, port: u16) -> Seq<u8> {
    seq![5u8, 1u8, 0u8, 3u8, host.len() as u8] + host + seq![
        (port / 256) as u8,
        (port % 256) as u8,
    ]
}

fn extend(message: &mut Vec<u8>, bytes: &[u8])
    ensures
        final(message)@ == old(message)@ + bytes@,
{
    message.extend_from_slice(bytes);
    assert(message@ =~= old(message)@ + bytes@);
}

/// Writes the greeting.
pub fn socks5_greeting(wants_auth: bool) -> (message: Vec<u8>)
    ensures
        message@ == greeting(wants_auth),
        reading::methods_offered(message@) == Some(
            if wants_auth {
                seq![0u8, 2u8]
            } else {
                seq![0u8]
            },
        ),
{
    proof {
        let methods = greeting(wants_auth).skip(2);
        if wants_auth {
            assert(methods =~= seq![0u8, 2u8]);
        } else {
            assert(methods =~= seq![0u8]);
        }
    }
    if wants_auth {
        vec![5u8, 2u8, 0u8, 2u8]
    } else {
        vec![5u8, 1u8, 0u8]
    }
}

/// Writes the message that carries the credentials; there is none when one of
/// them is longer than 255 bytes.
pub fn socks5_authenticate(username: &str, password: &str) -> (message: Option<Vec<u8>>)
    ensures
        match message {
            Some(message) => {
                &&& encode_utf8(username@).len() <= u8::MAX
                &&& encode_utf8(password@).len() <= u8::MAX
                &&& message@ == auth_message(encode_utf8(username@), encode_utf8(password@))
                &&& reading::credentials_carried(message@) == Some(
                    (encode_utf8(username@), encode_utf8(password@)),
                )
            },
            None => encode_utf8(username@).len() > u8::MAX || encode_utf8(password@).len()
                > u8::MAX,
        },
{
    let user = username.as_bytes();
    let pass = password.as_bytes();
    if user.len() > 255 || pass.len() > 255 {
        return None;
    }
    let mut message: Vec<u8> = vec![1u8, user.len() as u8];
    extend(&mut message, user);
    message.push(pass.len() as u8);
    extend(&mut message, pass);
    assert(message@ =~= auth_message(user@, pass@));
    proof {
        law_credentials_are_read_back(user@, pass@);
    }
    Some(message)
}

/// Writes the request to connect to `host`; there is none when `host` is longer
/// than 255 bytes.
pub fn socks5_request(host: &str, port: u16) -> (message: Option<Vec<u8>>)
    ensures
        match message {
            Some(message) => {
                &&& encode_utf8(host@).len() <= u8::MAX
                &&& message@ == connect_message(encode_utf8(host@), port)
                &&& reading::destination(message@) == Some((encode_utf8(host@), port as int))
            },
            None => encode_utf8(host@).len() > u8::MAX,
        },
{
    let name = host.as_bytes();
    if name.len() > 255 {
        return None;
    }
    let mut message: Vec<u8> = vec![5u8, 1u8, 0u8, 3u8, name.len() as u8];
    extend(&mut message, name);
    message.push((port / 256) as u8);
    message.push((port % 256) as u8);
    assert(message@ =~= connect_message(name@, port));
    proof {
        law_destination_is_read_back(name@, port);
    }
    Some(message)
}

// ---------------------------------------------------------------------------
// Refusals and faults
// ---------------------------------------------------------------------------

/// Why a conversation ends without a connection, other than a fault of the
/// line.
#[derive(Clone, Copy, Debug, PartialEq, Eq, Structural)]
pub enum Refusal {
    /// The proxy answered the greeting in another version.
    GreetingVersion(u8),
    /// The proxy accepts none of the methods offered.
    NoAcceptableMethod,
    /// The proxy chose a method that is not known here.
    UnknownMethod(u8),
    /// A credential does not fit in its message.
    CredentialsTooLong,
    /// The proxy did not accept the credentials.
    AuthenticationFailed,
    /// The host does not fit in the request.
    HostTooLong,
    /// The proxy answered the request in another version.
    ReplyVersion(u8),
    /// The proxy did not connect, with this code.
    Rejected(u8),
    /// The bound address is of a type that is not known here.
    UnknownAddressType(u8),
}

/// How a refusal is reported.
pub open spec fn refusal_text(purpose: Purpose, refusal: Refusal) -> Seq<char> {
    match (refusal, purpose) {
        (Refusal::GreetingVersion(_), Purpose::Tunnel) => "Invalid SOCKS proxy version"@,
        (Refusal::GreetingVersion(version), Purpose::Probe) => "Invalid SOCKS proxy version: "@
            + text::decimal(version as nat),
        (Refusal::NoAcceptableMethod, Purpose::Tunnel) =>
            "SOCKS proxy rejected supported authentication methods"@,
        (Refusal::NoAcceptableMethod, Purpose::Probe) =>
            "SOCKS proxy rejected all supported auth methods"@,
        (Refusal::UnknownMethod(method), _) => "SOCKS proxy selected unsupported auth method: "@
            + text::decimal(method as nat),
        (Refusal::CredentialsTooLong, _) => "SOCKS username or password is too long"@,
        (Refusal::AuthenticationFailed, _) => "SOCKS proxy authentication failed"@,
        (Refusal::HostTooLong, Purpose::Tunnel) =>
            "Remote host is too long for SOCKS5 domain address"@,
        (Refusal::HostTooLong, Purpose::Probe) => "Proxy host too long for SOCKS5 domain address"@,
        (Refusal::ReplyVersion(_), Purpose::Tunnel) => "Invalid SOCKS connect response version"@,
        (Refusal::ReplyVersion(version), Purpose::Probe) => "Invalid SOCKS proxy version: "@
            + text::decimal(version as nat),
        (Refusal::Rejected(code), Purpose::Tunnel) => "SOCKS proxy connect failed with code "@
            + text::decimal(code as nat),
        (Refusal::Rejected(code), Purpose::Probe) => "SOCKS proxy connect rejected (code "@
            + text::decimal(code as nat) + ")"@,
        (Refusal::UnknownAddressType(kind), _) => "Unsupported SOCKS bound address type: "@
            + text::decimal(kind as nat),
    }
}

fn with_number(prefix: &str, number: u8) -> (message: String)
    ensures
        message@ == prefix@ + text::decimal(number as nat),
{
    text::prefixed(prefix, text::decimal_text(number as u16).as_str())
}

/// Reports a refusal.
pub fn refusal_message(purpose: Purpose, refusal: Refusal) -> (message: String)
    ensures
        message@ == refusal_text(purpose, refusal),
{
    match (refusal, purpose) {
        (Refusal::GreetingVersion(_), Purpose::Tunnel) => "Invalid SOCKS proxy version".to_owned(),
        (Refusal::GreetingVersion(version), Purpose::Probe) => with_number(
            "Invalid SOCKS proxy version: ",
            version,
        ),
        (Refusal::NoAcceptableMethod, Purpose::Tunnel) =>
            "SOCKS proxy rejected supported authentication methods".to_owned(),
        (Refusal::NoAcceptableMethod, Purpose::Probe) =>
            "SOCKS proxy rejected all supported auth methods".to_owned(),
        (Refusal::UnknownMethod(method), _) => with_number(
            "SOCKS proxy selected unsupported auth method: ",
            method,
        ),
        (Refusal::CredentialsTooLong, _) => "SOCKS username or password is too long".to_owned(),
        (Refusal::AuthenticationFailed, _) => "SOCKS proxy authentication failed".to_owned(),
        (Refusal::HostTooLong, Purpose::Tunnel) =>
            "Remote host is too long for SOCKS5 domain address".to_owned(),
        (Refusal::HostTooLong, Purpose::Probe) =>
            "Proxy host too long for SOCKS5 domain address".to_owned(),
        (Refusal::ReplyVersion(_), Purpose::Tunnel) =>
            "Invalid SOCKS connect response version".to_owned(),
        (Refusal::ReplyVersion(version), Purpose::Probe) => with_number(
            "Invalid SOCKS proxy version: ",
            version,
        ),
        (Refusal::Rejected(code), Purpose::Tunnel) => with_number(
            "SOCKS proxy connect failed with code ",
            code,
        ),
        (Refusal::Rejected(code), Purpose::Probe) => {
            let mut message = with_number("SOCKS proxy connect rejected (code ", code);
            message.append(")");
            message
        },
        (Refusal::UnknownAddressType(kind), _) => with_number(
            "Unsupported SOCKS bound address type: ",
            kind,
        ),
    }
}

/// Where a conversation stands.
#[derive(Clone, Copy, Debug, PartialEq, Eq, Structural)]
pub enum Socks5Phase {
    /// Nothing was sent yet.
    Start,
    /// The greeting is on its way.
    Greeting,
    /// The proxy chooses a method.
    Method,
    /// The credentials are on their way.
    Credentials,
    /// The proxy checks the credentials.
    Verdict,
    /// The request is on its way.
    Request,
    /// The proxy answers the request.
    Reply,
    /// The length of the bound address comes next.
    AddressLength,
    /// The bound address and port come next: this many bytes.
    Address(usize),
    /// The conversation is over.
    Closed,
}

/// The answer that each phase waits for.
pub open spec fn phase_awaits(phase: Socks5Phase) -> Awaiting {
    match phase {
        Socks5Phase::Start => Awaiting::Start,
        Socks5Phase::Greeting => Awaiting::Sending,
        Socks5Phase::Method => Awaiting::Bytes(2),
        Socks5Phase::Credentials => Awaiting::Sending,
        Socks5Phase::Verdict => Awaiting::Bytes(2),
        Socks5Phase::Request => Awaiting::Sending,
        Socks5Phase::Reply => Awaiting::Bytes(4),
        Socks5Phase::AddressLength => Awaiting::Bytes(1),
        Socks5Phase::Address(count) => Awaiting::Bytes(count),
        Socks5Phase::Closed => Awaiting::Nothing,
    }
}

impl Socks5Phase {
    /// The answer that this phase waits for.
    pub fn awaits(self) -> (awaiting: Awaiting)
        ensures
            awaiting == phase_awaits(self),
    {
        match self {
            Socks5Phase::Start => Awaiting::Start,
            Socks5Phase::Greeting => Awaiting::Sending,
            Socks5Phase::Method => Awaiting::Bytes(2),
            Socks5Phase::Credentials => Awaiting::Sending,
            Socks5Phase::Verdict => Awaiting::Bytes(2),
            Socks5Phase::Request => Awaiting::Sending,
            Socks5Phase::Reply => Awaiting::Bytes(4),
            Socks5Phase::AddressLength => Awaiting::Bytes(1),
            Socks5Phase::Address(count) => Awaiting::Bytes(count),
            Socks5Phase::Closed => Awaiting::Nothing,
        }
    }
}

/// What a tunnel says before the reason of a fault in `phase`.
pub open spec fn fault_context(phase: Socks5Phase) -> Seq<char> {
    match phase {
        Socks5Phase::Greeting => "Failed to send SOCKS greeting: "@,
        Socks5Phase::Method => "Failed to read SOCKS greeting: "@,
        Socks5Phase::Credentials => "Failed to send SOCKS authentication: "@,
        Socks5Phase::Verdict => "Failed to read SOCKS authentication response: "@,
        Socks5Phase::Request => "Failed to send SOCKS connect request: "@,
        Socks5Phase::Reply => "Failed to read SOCKS connect response: "@,
        Socks5Phase::AddressLength => "Failed to read SOCKS bound address length: "@,
        _ => "Failed to read SOCKS bound address: "@,
    }
}

/// How a fault of the line is reported.
pub open spec fn fault_text(purpose: Purpose, phase: Socks5Phase, reason: Seq<char>) -> Seq<char> {
    match purpose {
        Purpose::Tunnel => fault_context(phase) + reason,
        Purpose::Probe => reason,
    }
}

/// Reports a fault of the line.
pub fn fault_message(purpose: Purpose, phase: Socks5Phase, reason: &str) -> (message: String)
    ensures
        message@ == fault_text(purpose, phase, reason@),
{
    match purpose {
        Purpose::Tunnel => {
            let context = match phase {
                Socks5Phase::Greeting => "Failed to send SOCKS greeting: ",
                Socks5Phase::Method => "Failed to read SOCKS greeting: ",
                Socks5Phase::Credentials => "Failed to send SOCKS authentication: ",
                Socks5Phase::Verdict => "Failed to read SOCKS authentication response: ",
                Socks5Phase::Request => "Failed to send SOCKS connect request: ",
                Socks5Phase::Reply => "Failed to read SOCKS connect response: ",
                Socks5Phase::AddressLength => "Failed to read SOCKS bound address length: ",
                _ => "Failed to read SOCKS bound address: ",
            };
            text::prefixed(context, reason)
        },
        Purpose::Probe => reason.to_owned(),
    }
}

// ---------------------------------------------------------------------------
// The conversation
// ---------------------------------------------------------------------------

/// What the header of a reply is refused for, if anything.
pub open spec fn header_refusal(header: Seq<u8>) -> Option<Refusal> {
    if header[0] != 5 {
        Some(Refusal::ReplyVersion(header[0]))
    } else if header[1] != 0 {
        Some(Refusal::Rejected(header[1]))
    } else {
        None
    }
}

fn check_header(version: u8, code: u8) -> (refusal: Option<Refusal>)
    ensures
        refusal == header_refusal(seq![version, code]),
{
    if version != 5 {
        Some(Refusal::ReplyVersion(version))
    } else if code != 0 {
        Some(Refusal::Rejected(code))
    } else {
        None
    }
}

/// Checks the first four bytes of the reply to a request, as a probe does.
pub fn parse_socks5_connect_header(header: &[u8; 4]) -> (verdict: Result<(), String>)
    ensures
        verdict is Ok <==> header@[0] == 5 && header@[1] == 0,
        verdict matches Err(message) ==> message@ == if header@[0] != 5 {
            "Invalid SOCKS proxy version: "@ + text::decimal(header@[0] as nat)
        } else {
            "SOCKS proxy connect rejected (code "@ + text::decimal(header@[1] as nat) + ")"@
        },
        wire::result_view(verdict) == match header_refusal(header@) {
            Some(refusal) => Err(refusal_text(Purpose::Probe, refusal)),
            None => Ok(()),
        },
{
    match check_header(header[0], header[1]) {
        Some(refusal) => Err(refusal_message(Purpose::Probe, refusal)),
        None => Ok(()),
    }
}

/// The end of a conversation that was refused.
pub open spec fn refused(purpose: Purpose, refusal: Refusal) -> (Socks5Phase, ActionView<()>) {
    (Socks5Phase::Closed, ActionView::Finish(Err(refusal_text(purpose, refusal))))
}

/// The request, once the proxy let the client in.
pub open spec fn ask_connection(purpose: Purpose, remote: RemoteView) -> (
    Socks5Phase,
    ActionView<()>,
) {
    let host = encode_utf8(remote.host);
    if host.len() > u8::MAX {
        refused(purpose, Refusal::HostTooLong)
    } else {
        (Socks5Phase::Request, ActionView::Send(connect_message(host, remote.port)))
    }
}

/// The credentials, once the proxy asked for them.
pub open spec fn present_credentials(purpose: Purpose, proxy: ProxyView) -> (
    Socks5Phase,
    ActionView<()>,
) {
    let username = encode_utf8(proxy.username);
    let password = encode_utf8(proxy.password);
    if username.len() > u8::MAX || password.len() > u8::MAX {
        refused(purpose, Refusal::CredentialsTooLong)
    } else {
        (Socks5Phase::Credentials, ActionView::Send(auth_message(username, password)))
    }
}

/// What follows the choice of a method.
pub open spec fn method_chosen(
    purpose: Purpose,
    proxy: ProxyView,
    remote: RemoteView,
    version: u8,
    method: u8,
) -> (Socks5Phase, ActionView<()>) {
    if version != 5 {
        refused(purpose, Refusal::GreetingVersion(version))
    } else if method == 0 {
        ask_connection(purpose, remote)
    } else if method == 2 {
        present_credentials(purpose, proxy)
    } else if method == 0xff {
        refused(purpose, Refusal::NoAcceptableMethod)
    } else {
        refused(purpose, Refusal::UnknownMethod(method))
    }
}

/// What follows the header of a reply.
pub open spec fn header_read(purpose: Purpose, header: Seq<u8>) -> (Socks5Phase, ActionView<()>) {
    match header_refusal(header) {
        Some(refusal) => refused(purpose, refusal),
        None => if header[3] == 1 {
            (Socks5Phase::Address(6), ActionView::Receive(6))
        } else if header[3] == 3 {
            (Socks5Phase::AddressLength, ActionView::Receive(1))
        } else if header[3] == 4 {
            (Socks5Phase::Address(18), ActionView::Receive(18))
        } else {
            refused(purpose, Refusal::UnknownAddressType(header[3]))
        },
    }
}

/// The step of a conversation with a SOCKS5 proxy.
pub open spec fn socks5_step(
    phase: Socks5Phase,
    purpose: Purpose,
    proxy: ProxyView,
    remote: RemoteView,
    event: EventView,
) -> (Socks5Phase, ActionView<()>) {
    match (phase, event) {
        (Socks5Phase::Start, EventView::Started) => (
            Socks5Phase::Greeting,
            ActionView::Send(greeting(proxy.wants_auth())),
        ),
        (Socks5Phase::Greeting, EventView::Sent) => (Socks5Phase::Method, ActionView::Receive(2)),
        (Socks5Phase::Method, EventView::Received(choice)) => method_chosen(
            purpose,
            proxy,
            remote,
            choice[0],
            choice[1],
        ),
        (Socks5Phase::Credentials, EventView::Sent) => (
            Socks5Phase::Verdict,
            ActionView::Receive(2),
        ),
        (Socks5Phase::Verdict, EventView::Received(verdict)) => if verdict[0] == 1 && verdict[1]
            == 0 {
            ask_connection(purpose, remote)
        } else {
            refused(purpose, Refusal::AuthenticationFailed)
        },
        (Socks5Phase::Request, EventView::Sent) => (Socks5Phase::Reply, ActionView::Receive(4)),
        (Socks5Phase::Reply, EventView::Received(header)) => header_read(purpose, header),
        (Socks5Phase::AddressLength, EventView::Received(length)) => (
            Socks5Phase::Address((length[0] + 2) as usize),
            ActionView::Receive((length[0] + 2) as nat),
        ),
        (Socks5Phase::Address(_), EventView::Received(_)) => (
            Socks5Phase::Closed,
            ActionView::Finish(Ok(())),
        ),
        (_, EventView::Failed(reason)) => (
            Socks5Phase::Closed,
            ActionView::Finish(Err(fault_text(purpose, phase, reason))),
        ),
        _ => arbitrary(),
    }
}

fn refuse(purpose: Purpose, refusal: Refusal) -> (next: (Socks5Phase, Action<()>))
    ensures
        (next.0, next.1@) == refused(purpose, refusal),
{
    (Socks5Phase::Closed, Action::Finish(Err(refusal_message(purpose, refusal))))
}

fn ask(purpose: Purpose, remote: &RemoteEndpoint) -> (next: (Socks5Phase, Action<()>))
    ensures
        (next.0, next.1@) == ask_connection(purpose, remote@),
{
    match socks5_request(remote.host.as_str(), remote.port) {
        Some(message) => (Socks5Phase::Request, Action::Send(message)),
        None => refuse(purpose, Refusal::HostTooLong),
    }
}

fn choose_method(
    purpose: Purpose,
    proxy: &ProxyEndpoint,
    remote: &RemoteEndpoint,
    version: u8,
    method: u8,
) -> (next: (Socks5Phase, Action<()>))
    ensures
        (next.0, next.1@) == method_chosen(purpose, proxy@, remote@, version, method),
{
    if version != 5 {
        return refuse(purpose, Refusal::GreetingVersion(version));
    }
    match method {
        0 => ask(purpose, remote),
        2 => match socks5_authenticate(proxy.username.as_str(), proxy.password.as_str()) {
            Some(message) => (Socks5Phase::Credentials, Action::Send(message)),
            None => refuse(purpose, Refusal::CredentialsTooLong),
        },
        0xff => refuse(purpose, Refusal::NoAcceptableMethod),
        other => refuse(purpose, Refusal::UnknownMethod(other)),
    }
}

fn read_header(purpose: Purpose, header: &Vec<u8>) -> (next: (Socks5Phase, Action<()>))
    requires
        header@.len() == 4,
    ensures
        (next.0, next.1@) == header_read(purpose, header@),
{
    match check_header(header[0], header[1]) {
        Some(refusal) => refuse(purpose, refusal),
        None => match header[3] {
            1 => (Socks5Phase::Address(6), Action::Receive(6)),
            3 => (Socks5Phase::AddressLength, Action::Receive(1)),
            4 => (Socks5Phase::Address(18), Action::Receive(18)),
            other => refuse(purpose, Refusal::UnknownAddressType(other)),
        },
    }
}

/// Takes the next step of a conversation with a SOCKS5 proxy: the greeting, the
/// credentials if the proxy asks for them, the request for `remote`, and the
/// reply up to the end of the bound address.
pub fn socks5_connect(
    phase: Socks5Phase,
    purpose: Purpose,
    proxy: &ProxyEndpoint,
    remote: &RemoteEndpoint,
    event: Event,
) -> (next: (Socks5Phase, Action<()>))
    requires
        wire::is_answer(phase_awaits(phase), event@),
    ensures
        (next.0, next.1@) == socks5_step(phase, purpose, proxy@, remote@, event@),
        phase_awaits(next.0) == wire::awaited_by(next.1@),
{
    match (phase, event) {
        (_, Event::Failed(reason)) => (
            Socks5Phase::Closed,
            Action::Finish(Err(fault_message(purpose, phase, reason.as_str()))),
        ),
        (Socks5Phase::Start, _) => (
            Socks5Phase::Greeting,
            Action::Send(socks5_greeting(proxy.wants_auth())),
        ),
        (Socks5Phase::Greeting, _) => (Socks5Phase::Method, Action::Receive(2)),
        (Socks5Phase::Method, Event::Received(choice)) => choose_method(
            purpose,
            proxy,
            remote,
            choice[0],
            choice[1],
        ),
        (Socks5Phase::Credentials, _) => (Socks5Phase::Verdict, Action::Receive(2)),
        (Socks5Phase::Verdict, Event::Received(verdict)) => {
            if verdict[0] == 1 && verdict[1] == 0 {
                ask(purpose, remote)
            } else {
                refuse(purpose, Refusal::AuthenticationFailed)
            }
        },
        (Socks5Phase::Request, _) => (Socks5Phase::Reply, Action::Receive(4)),
        (Socks5Phase::Reply, Event::Received(header)) => read_header(purpose, &header),
        (Socks5Phase::AddressLength, Event::Received(length)) => {
            let count: usize = length[0] as usize + 2;
            (Socks5Phase::Address(count), Action::Receive(count))
        },
        (Socks5Phase::Address(_), _) => (Socks5Phase::Closed, Action::Finish(Ok(()))),
        _ => unreached(),
    }
}

// ---------------------------------------------------------------------------
// Laws
// ---------------------------------------------------------------------------

/// The credentials that a message carries can be read back from it.
pub proof fn law_credentials_are_recoverable(
    username: Seq<u8>,
    password: Seq<u8>,
    other_username: Seq<u8>,
    other_password: Seq<u8>,
)
    requires
        username.len() <= u8::MAX,
        password.len() <= u8::MAX,
        other_username.len() <= u8::MAX,
        other_password.len() <= u8::MAX,
        auth_message(username, password) == auth_message(other_username, other_password),
    ensures
        username == other_username,
        password == other_password,
{
    let one = auth_message(username, password);
    let two = auth_message(other_username, other_password);
    let n = username.len() as int;
    assert(one[1] == username.len() as u8);
    assert(two[1] == other_username.len() as u8);
    assert(one.subrange(2, 2 + n) =~= username);
    assert(two.subrange(2, 2 + n) =~= other_username);
    assert(one.subrange(3 + n, one.len() as int) =~= password);
    assert(two.subrange(3 + n, two.len() as int) =~= other_password);
}

/// The host and the port that a request names can be read back from it.
pub proof fn law_target_is_recoverable(
    host: Seq<char>,
    port: u16,
    other_host: Seq<char>,
    other_port: u16,
)
    requires
        encode_utf8(host).len() <= u8::MAX,
        encode_utf8(other_host).len() <= u8::MAX,
        connect_message(encode_utf8(host), port) == connect_message(
            encode_utf8(other_host),
            other_port,
        ),
    ensures
        host == other_host,
        port == other_port,
{
    let name = encode_utf8(host);
    let other_name = encode_utf8(other_host);
    let one = connect_message(name, port);
    let two = connect_message(other_name, other_port);
    let n = name.len() as int;
    assert(one[4] == name.len() as u8);
    assert(two[4] == other_name.len() as u8);
    assert(one.subrange(5, 5 + n) =~= name);
    assert(two.subrange(5, 5 + n) =~= other_name);
    encode_utf8_decode_utf8(host);
    encode_utf8_decode_utf8(other_host);
    assert(one[5 + n] == (port / 256) as u8);
    assert(two[5 + n] == (other_port / 256) as u8);
    assert(one[6 + n] == (port % 256) as u8);
    assert(two[6 + n] == (other_port % 256) as u8);
}

/// How many phases may still follow.
pub open spec fn phases_left(phase: Socks5Phase) -> nat {
    match phase {
        Socks5Phase::Start => 9,
        Socks5Phase::Greeting => 8,
        Socks5Phase::Method => 7,
        Socks5Phase::Credentials => 6,
        Socks5Phase::Verdict => 5,
        Socks5Phase::Request => 4,
        Socks5Phase::Reply => 3,
        Socks5Phase::AddressLength => 2,
        Socks5Phase::Address(_) => 1,
        Socks5Phase::Closed => 0,
    }
}

/// The course of a conversation from `phase` on, with a proxy that takes all
/// it is sent and answers with `stream`.
pub open spec fn socks5_course(
    phase: Socks5Phase,
    purpose: Purpose,
    proxy: ProxyView,
    remote: RemoteView,
    stream: Seq<u8>,
    end: Seq<char>,
) -> Course<()>
    decreases phases_left(phase),
{
    let awaiting = phase_awaits(phase);
    let (next, action) = socks5_step(
        phase,
        purpose,
        proxy,
        remote,
        wire::heard(awaiting, stream, end),
    );
    let rest = wire::left_unread(awaiting, stream);
    let later = if phases_left(next) < phases_left(phase) {
        socks5_course(next, purpose, proxy, remote, rest, end)
    } else {
        arbitrary()
    };
    wire::continued(action, rest, later)
}

/// Every step leads to a later phase, so a conversation takes nine steps at
/// most.
pub proof fn law_conversation_ends(
    phase: Socks5Phase,
    purpose: Purpose,
    proxy: ProxyView,
    remote: RemoteView,
    event: EventView,
)
    requires
        wire::is_answer(phase_awaits(phase), event),
    ensures
        phases_left(socks5_step(phase, purpose, proxy, remote, event).0) < phases_left(phase),
        socks5_step(phase, purpose, proxy, remote, event).0 is Closed <==> socks5_step(
            phase,
            purpose,
            proxy,
            remote,
            event,
        ).1 is Finish,
{
}

/// How many bytes the reply to a request takes, from its header on.
pub open spec fn reply_len(reply: Seq<u8>) -> int {
    if reply[3] == 1 {
        10
    } else if reply[3] == 3 {
        7 + reply[4]
    } else {
        22
    }
}

/// Whether `reply` begins with a whole reply that grants the request.
pub open spec fn grants_request(reply: Seq<u8>) -> bool {
    &&& reply.len() >= 4
    &&& reply[0] == 5
    &&& reply[1] == 0
    &&& reply[3] == 1 || reply[3] == 3 || reply[3] == 4
    &&& reply[3] == 3 ==> reply.len() >= 5
    &&& reply.len() >= reply_len(reply)
}

/// Where the reply to the request begins in the bytes that a proxy sends.
pub open spec fn reply_start(stream: Seq<u8>) -> int {
    if stream[1] == 2 {
        4
    } else {
        2
    }
}

/// Whether the proxy lets the client in: without credentials, or with them.
pub open spec fn lets_in(proxy: ProxyView, stream: Seq<u8>) -> bool {
    &&& stream.len() >= 2
    &&& stream[0] == 5
    &&& {
        ||| stream[1] == 0
        ||| {
            &&& stream[1] == 2
            &&& encode_utf8(proxy.username).len() <= u8::MAX
            &&& encode_utf8(proxy.password).len() <= u8::MAX
            &&& stream.len() >= 4
            &&& stream[2] == 1
            &&& stream[3] == 0
        }
    }
}

/// Whether the bytes of a proxy bring the connection about.
pub open spec fn establishes(proxy: ProxyView, remote: RemoteView, stream: Seq<u8>) -> bool {
    &&& lets_in(proxy, stream)
    &&& encode_utf8(remote.host).len() <= u8::MAX
    &&& grants_request(stream.skip(reply_start(stream)))
}

/// The messages of a conversation that succeeds: the credentials are among
/// them exactly when the proxy asked for them.
pub open spec fn messages(proxy: ProxyView, remote: RemoteView, stream: Seq<u8>) -> Seq<Seq<u8>> {
    let request = connect_message(encode_utf8(remote.host), remote.port);
    if stream[1] == 2 {
        seq![
            greeting(proxy.wants_auth()),
            auth_message(encode_utf8(proxy.username), encode_utf8(proxy.password)),
            request,
        ]
    } else {
        seq![greeting(proxy.wants_auth()), request]
    }
}

proof fn lemma_course_of_reply(
    purpose: Purpose,
    proxy: ProxyView,
    remote: RemoteView,
    reply: Seq<u8>,
    end: Seq<char>,
)
    ensures
        ({
            let course = socks5_course(Socks5Phase::Request, purpose, proxy, remote, reply, end);
            &&& course.sent == Seq::<Seq<u8>>::empty()
            &&& course.result is Ok <==> grants_request(reply)
            &&& course.result is Ok ==> course.rest == reply.skip(reply_len(reply))
        }),
{
    let course = socks5_course(Socks5Phase::Request, purpose, proxy, remote, reply, end);
    assert(course == socks5_course(Socks5Phase::Reply, purpose, proxy, remote, reply, end));
    if reply.len() >= 4 {
        let header = reply.take(4);
        let tail = reply.skip(4);
        assert(header[0] == reply[0] && header[1] == reply[1] && header[3] == reply[3]);
        if header_refusal(header) is None {
            if header[3] == 1 {
                lemma_course_of_address(purpose, proxy, remote, 6, tail, end);
                if reply.len() >= 10 {
                    assert(tail.skip(6) =~= reply.skip(10));
                }
            } else if header[3] == 4 {
                lemma_course_of_address(purpose, proxy, remote, 18, tail, end);
                if reply.len() >= 22 {
                    assert(tail.skip(18) =~= reply.skip(22));
                }
            } else if header[3] == 3 {
                assert(course == socks5_course(
                    Socks5Phase::AddressLength,
                    purpose,
                    proxy,
                    remote,
                    tail,
                    end,
                ));
                if reply.len() >= 5 {
                    let count: usize = (reply[4] + 2) as usize;
                    assert(tail.take(1)[0] == reply[4]);
                    lemma_course_of_address(purpose, proxy, remote, count, tail.skip(1), end);
                    if reply.len() >= 5 + count {
                        assert(tail.skip(1).skip(count as int) =~= reply.skip(5 + count));
                    }
                }
            }
        }
    }
}

proof fn lemma_course_of_address(
    purpose: Purpose,
    proxy: ProxyView,
    remote: RemoteView,
    count: usize,
    stream: Seq<u8>,
    end: Seq<char>,
)
    ensures
        ({
            let course = socks5_course(
                Socks5Phase::Address(count),
                purpose,
                proxy,
                remote,
                stream,
                end,
            );
            &&& course.sent == Seq::<Seq<u8>>::empty()
            &&& course.result is Ok <==> count <= stream.len()
            &&& course.result is Ok ==> course.rest == stream.skip(count as int)
        }),
{
}

/// The opening of a conversation, up to the choice of a method.
proof fn lemma_course_of_opening(
    purpose: Purpose,
    proxy: ProxyView,
    remote: RemoteView,
    stream: Seq<u8>,
    end: Seq<char>,
)
    ensures
        ({
            let course = socks5_course(Socks5Phase::Start, purpose, proxy, remote, stream, end);
            let later = socks5_course(Socks5Phase::Method, purpose, proxy, remote, stream, end);
            &&& course.result == later.result
            &&& course.sent == seq![greeting(proxy.wants_auth())] + later.sent
            &&& course.rest == later.rest
        }),
{
    let greeted = socks5_course(Socks5Phase::Greeting, purpose, proxy, remote, stream, end);
    assert(greeted == socks5_course(Socks5Phase::Method, purpose, proxy, remote, stream, end));
}

/// The course of a conversation in which the credentials are on their way.
proof fn lemma_course_of_credentials(
    purpose: Purpose,
    proxy: ProxyView,
    remote: RemoteView,
    stream: Seq<u8>,
    end: Seq<char>,
)
    ensures
        ({
            let course = socks5_course(
                Socks5Phase::Credentials,
                purpose,
                proxy,
                remote,
                stream,
                end,
            );
            let host = encode_utf8(remote.host);
            let asked = seq![connect_message(host, remote.port)];
            let admitted = stream.len() >= 2 && stream[0] == 1 && stream[1] == 0 && host.len()
                <= u8::MAX;
            &&& course.sent == if admitted {
                asked
            } else {
                seq![]
            }
            &&& course.result is Ok <==> admitted && grants_request(stream.skip(2))
            &&& course.result is Ok ==> course.rest == stream.skip(2).skip(
                reply_len(stream.skip(2)),
            )
        }),
{
    let course = socks5_course(Socks5Phase::Credentials, purpose, proxy, remote, stream, end);
    assert(course == socks5_course(Socks5Phase::Verdict, purpose, proxy, remote, stream, end));
    if stream.len() >= 2 {
        assert(stream.take(2)[0] == stream[0] && stream.take(2)[1] == stream[1]);
        lemma_course_of_reply(purpose, proxy, remote, stream.skip(2), end);
    }
}

/// A conversation succeeds exactly when the proxy speaks version five, lets the
/// client in and grants the request. It then has sent the greeting, the
/// credentials if they were asked for, and the request; and it has read the
/// proxy's answers and not a byte more, so that what follows belongs to the
/// tunnel.
pub proof fn law_conversation_succeeds_iff_established(
    purpose: Purpose,
    proxy: ProxyView,
    remote: RemoteView,
    stream: Seq<u8>,
    end: Seq<char>,
)
    ensures
        ({
            let course = socks5_course(Socks5Phase::Start, purpose, proxy, remote, stream, end);
            let start = reply_start(stream);
            &&& course.result is Ok <==> establishes(proxy, remote, stream)
            &&& course.result is Ok ==> {
                &&& course.sent == messages(proxy, remote, stream)
                &&& course.rest == stream.skip(start + reply_len(stream.skip(start)))
            }
        }),
{
    let course = socks5_course(Socks5Phase::Start, purpose, proxy, remote, stream, end);
    lemma_course_of_opening(purpose, proxy, remote, stream, end);
    if stream.len() >= 2 {
        let later = stream.skip(2);
        assert(stream.take(2)[0] == stream[0] && stream.take(2)[1] == stream[1]);
        lemma_course_of_reply(purpose, proxy, remote, later, end);
        lemma_course_of_credentials(purpose, proxy, remote, later, end);
        if stream.len() >= 4 {
            assert(later[0] == stream[2] && later[1] == stream[3]);
            assert(later.skip(2) =~= stream.skip(4));
        }
        if course.result is Ok {
            let start = reply_start(stream);
            let reply = stream.skip(start);
            assert(reply.skip(reply_len(reply)) =~= stream.skip(start + reply_len(reply)));
            assert(course.sent =~= messages(proxy, remote, stream));
        }
    }
}

/// Whatever the proxy answers, the messages sent are the first ones of the
/// conversation in their order: after a refusal nothing more is sent.
pub proof fn law_messages_keep_their_order(
    purpose: Purpose,
    proxy: ProxyView,
    remote: RemoteView,
    stream: Seq<u8>,
    end: Seq<char>,
)
    ensures
        socks5_course(Socks5Phase::Start, purpose, proxy, remote, stream, end).sent.is_prefix_of(
            messages(proxy, remote, stream),
        ),
{
    lemma_course_of_opening(purpose, proxy, remote, stream, end);
    if stream.len() >= 2 {
        let later = stream.skip(2);
        assert(stream.take(2)[0] == stream[0] && stream.take(2)[1] == stream[1]);
        lemma_course_of_reply(purpose, proxy, remote, later, end);
        lemma_course_of_credentials(purpose, proxy, remote, later, end);
    }
}

/// A greeting offers to go on without authentication, always and first, and to
/// present a username and a password exactly when there is one to present.
pub proof fn law_greeting_offers_what_there_is(proxy: ProxyView)
    ensures
        reading::methods_offered(greeting(proxy.wants_auth())) == Some(
            if proxy.username.len() == 0 && proxy.password.len() == 0 {
                seq![0u8]
            } else {
                seq![0u8, 2u8]
            },
        ),
{
    let message = greeting(proxy.wants_auth());
    let methods = reading::methods_offered(message)->0;
    if proxy.username.len() == 0 && proxy.password.len() == 0 {
        assert(methods =~= seq![0u8]);
    } else {
        assert(methods =~= seq![0u8, 2u8]);
    }
}

/// Who reads the message with the credentials finds the username and the
/// password in it, each in its place.
pub proof fn law_credentials_are_read_back(username: Seq<u8>, password: Seq<u8>)
    requires
        username.len() <= 255,
        password.len() <= 255,
    ensures
        reading::credentials_carried(auth_message(username, password)) == Some(
            (username, password),
        ),
{
    let message = auth_message(username, password);
    let n = username.len() as int;
    assert(message[0] == 1 && message[1] == n);
    assert(message[2 + n] == password.len());
    assert(message.subrange(2, 2 + n) =~= username);
    assert(message.skip(3 + n) =~= password);
}

/// Who reads the request finds the host and the port in it that were asked for.
pub proof fn law_destination_is_read_back(host: Seq<u8>, port: u16)
    requires
        host.len() <= 255,
    ensures
        reading::destination(connect_message(host, port)) == Some((host, port as int)),
{
    let message = connect_message(host, port);
    let n = host.len() as int;
    assert(message[0] == 5 && message[1] == 1 && message[2] == 0 && message[3] == 3);
    assert(message[4] == n);
    assert(message.subrange(5, 5 + n) =~= host);
    assert(message[5 + n] == port / 256);
    assert(message[6 + n] == port % 256);
}

/// A proxy that asks for credentials is sent those of the endpoint, where a
/// username or password of more than 255 bytes ends the conversation; a proxy
/// that lets the client in, with or without credentials, is asked for the
/// remote host and port.
pub proof fn law_proxy_is_sent_what_it_is_due(
    purpose: Purpose,
    proxy: ProxyView,
    remote: RemoteView,
)
    ensures
        ({
            let user = encode_utf8(proxy.username);
            let pass = encode_utf8(proxy.password);
            let login = socks5_step(
                Socks5Phase::Method,
                purpose,
                proxy,
                remote,
                EventView::Received(seq![5u8, 2u8]),
            );
            if user.len() <= 255 && pass.len() <= 255 {
                &&& login.0 is Credentials
                &&& login.1 matches ActionView::Send(message)
                &&& reading::credentials_carried(message) == Some((user, pass))
            } else {
                &&& login.0 is Closed
                &&& login.1 == ActionView::<()>::Finish(
                    Err("SOCKS username or password is too long"@),
                )
            }
        }),
        ({
            let host = encode_utf8(remote.host);
            let open = socks5_step(
                Socks5Phase::Method,
                purpose,
                proxy,
                remote,
                EventView::Received(seq![5u8, 0u8]),
            );
            let known = socks5_step(
                Socks5Phase::Verdict,
                purpose,
                proxy,
                remote,
                EventView::Received(seq![1u8, 0u8]),
            );
            &&& known == open
            &&& if host.len() <= 255 {
                &&& open.0 is Request
                &&& open.1 matches ActionView::Send(message)
                &&& reading::destination(message) == Some((host, remote.port as int))
            } else {
                &&& open.0 is Closed
                &&& open.1 == ActionView::<()>::Finish(
                    Err(
                        match purpose {
                            Purpose::Tunnel => "Remote host is too long for SOCKS5 domain address"@,
                            Purpose::Probe => "Proxy host too long for SOCKS5 domain address"@,
                        },
                    ),
                )
            }
        }),
        ({
            let first = socks5_step(
                Socks5Phase::Start,
                purpose,
                proxy,
                remote,
                EventView::Started,
            );
            &&& first.0 is Greeting
            &&& first.1 matches ActionView::Send(message)
            &&& reading::methods_offered(message) == Some(
                if proxy.username.len() == 0 && proxy.password.len() == 0 {
                    seq![0u8]
                } else {
                    seq![0u8, 2u8]
                },
            )
        }),
{
    law_greeting_offers_what_there_is(proxy);
    let user = encode_utf8(proxy.username);
    let pass = encode_utf8(proxy.password);
    if user.len() <= 255 && pass.len() <= 255 {
        law_credentials_are_read_back(user, pass);
    }
    if encode_utf8(remote.host).len() <= 255 {
        law_destination_is_read_back(encode_utf8(remote.host), remote.port);
    }
}

/// Whatever the conversation waits for, a failure of the line ends it. A tunnel
/// says what it was about and then the reason, a probe the reason alone.
pub proof fn law_faults_are_reported(
    phase: Socks5Phase,
    purpose: Purpose,
    proxy: ProxyView,
    remote: RemoteView,
    reason: Seq<char>,
)
    requires
        !(phase is Start || phase is Closed),
    ensures
        socks5_step(phase, purpose, proxy, remote, EventView::Failed(reason)) == (
            Socks5Phase::Closed,
            ActionView::<()>::Finish(
                Err(
                    if purpose is Probe {
                        reason
                    } else if phase is Greeting {
                        "Failed to send SOCKS greeting: "@ + reason
                    } else if phase is Method {
                        "Failed to read SOCKS greeting: "@ + reason
                    } else if phase is Credentials {
                        "Failed to send SOCKS authentication: "@ + reason
                    } else if phase is Verdict {
                        "Failed to read SOCKS authentication response: "@ + reason
                    } else if phase is Request {
                        "Failed to send SOCKS connect request: "@ + reason
                    } else if phase is Reply {
                        "Failed to read SOCKS connect response: "@ + reason
                    } else if phase is AddressLength {
                        "Failed to read SOCKS bound address length: "@ + reason
                    } else {
                        "Failed to read SOCKS bound address: "@ + reason
                    },
                ),
            ),
        ),
{
}

proof fn lemma_result_of_address(
    purpose: Purpose,
    proxy: ProxyView,
    remote: RemoteView,
    count: usize,
    stream: Seq<u8>,
    end: Seq<char>,
)
    ensures
        socks5_course(Socks5Phase::Address(count), purpose, proxy, remote, stream, end).result
            == if count <= stream.len() {
            Ok::<(), Seq<char>>(())
        } else if purpose is Tunnel {
            Err("Failed to read SOCKS bound address: "@ + end)
        } else {
            Err(end)
        },
{
}

proof fn lemma_result_of_reply(
    purpose: Purpose,
    proxy: ProxyView,
    remote: RemoteView,
    reply: Seq<u8>,
    end: Seq<char>,
)
    ensures
        socks5_course(Socks5Phase::Request, purpose, proxy, remote, reply, end).result == {
            let tunnel = purpose is Tunnel;
            if reply.len() < 4 {
                Err::<(), Seq<char>>(
                    if tunnel {
                        "Failed to read SOCKS connect response: "@ + end
                    } else {
                        end
                    },
                )
            } else if reply[0] != 5 {
                Err(
                    if tunnel {
                        "Invalid SOCKS connect response version"@
                    } else {
                        "Invalid SOCKS proxy version: "@ + text::decimal(reply[0] as nat)
                    },
                )
            } else if reply[1] != 0 {
                Err(
                    if tunnel {
                        "SOCKS proxy connect failed with code "@ + text::decimal(reply[1] as nat)
                    } else {
                        "SOCKS proxy connect rejected (code "@ + text::decimal(reply[1] as nat)
                            + ")"@
                    },
                )
            } else if reply[3] != 1 && reply[3] != 3 && reply[3] != 4 {
                Err("Unsupported SOCKS bound address type: "@ + text::decimal(reply[3] as nat))
            } else if reply[3] == 3 && reply.len() < 5 {
                Err(
                    if tunnel {
                        "Failed to read SOCKS bound address length: "@ + end
                    } else {
                        end
                    },
                )
            } else if reply[3] == 1 && reply.len() < 10 || reply[3] == 4 && reply.len() < 22
                || reply[3] == 3 && reply.len() < 7 + reply[4] {
                Err(
                    if tunnel {
                        "Failed to read SOCKS bound address: "@ + end
                    } else {
                        end
                    },
                )
            } else {
                Ok(())
            }
        },
{
    let course = socks5_course(Socks5Phase::Request, purpose, proxy, remote, reply, end);
    assert(course == socks5_course(Socks5Phase::Reply, purpose, proxy, remote, reply, end));
    if reply.len() >= 4 {
        let head = reply.take(4);
        let tail = reply.skip(4);
        assert(head[0] == reply[0] && head[1] == reply[1] && head[3] == reply[3]);
        if header_refusal(head) is None {
            if head[3] == 1 {
                lemma_result_of_address(purpose, proxy, remote, 6, tail, end);
            } else if head[3] == 4 {
                lemma_result_of_address(purpose, proxy, remote, 18, tail, end);
            } else if head[3] == 3 {
                assert(course == socks5_course(
                    Socks5Phase::AddressLength,
                    purpose,
                    proxy,
                    remote,
                    tail,
                    end,
                ));
                if reply.len() >= 5 {
                    let count: usize = (reply[4] + 2) as usize;
                    assert(tail.take(1)[0] == reply[4]);
                    lemma_result_of_address(purpose, proxy, remote, count, tail.skip(1), end);
                }
            }
        }
    }
}

/// What a conversation comes to is decided by the bytes of the proxy alone, in
/// the order in which they come: what is not as it must be first ends it.
pub proof fn law_conversation_result(
    purpose: Purpose,
    proxy: ProxyView,
    remote: RemoteView,
    stream: Seq<u8>,
    end: Seq<char>,
)
    ensures
        socks5_course(Socks5Phase::Start, purpose, proxy, remote, stream, end).result == {
            let tunnel = purpose is Tunnel;
            let reply = stream.skip(
                if stream[1] == 2 {
                    4
                } else {
                    2
                },
            );
            if stream.len() < 2 {
                Err::<(), Seq<char>>(
                    if tunnel {
                        "Failed to read SOCKS greeting: "@ + end
                    } else {
                        end
                    },
                )
            } else if stream[0] != 5 {
                Err(
                    if tunnel {
                        "Invalid SOCKS proxy version"@
                    } else {
                        "Invalid SOCKS proxy version: "@ + text::decimal(stream[0] as nat)
                    },
                )
            } else if stream[1] == 255 {
                Err(
                    if tunnel {
                        "SOCKS proxy rejected supported authentication methods"@
                    } else {
                        "SOCKS proxy rejected all supported auth methods"@
                    },
                )
            } else if stream[1] != 0 && stream[1] != 2 {
                Err(
                    "SOCKS proxy selected unsupported auth method: "@ + text::decimal(
                        stream[1] as nat,
                    ),
                )
            } else if stream[1] == 2 && (encode_utf8(proxy.username).len() > 255 || encode_utf8(
                proxy.password,
            ).len() > 255) {
                Err("SOCKS username or password is too long"@)
            } else if stream[1] == 2 && stream.len() < 4 {
                Err(
                    if tunnel {
                        "Failed to read SOCKS authentication response: "@ + end
                    } else {
                        end
                    },
                )
            } else if stream[1] == 2 && (stream[2] != 1 || stream[3] != 0) {
                Err("SOCKS proxy authentication failed"@)
            } else if encode_utf8(remote.host).len() > 255 {
                Err(
                    if tunnel {
                        "Remote host is too long for SOCKS5 domain address"@
                    } else {
                        "Proxy host too long for SOCKS5 domain address"@
                    },
                )
            } else if reply.len() < 4 {
                Err(
                    if tunnel {
                        "Failed to read SOCKS connect response: "@ + end
                    } else {
                        end
                    },
                )
            } else if reply[0] != 5 {
                Err(
                    if tunnel {
                        "Invalid SOCKS connect response version"@
                    } else {
                        "Invalid SOCKS proxy version: "@ + text::decimal(reply[0] as nat)
                    },
                )
            } else if reply[1] != 0 {
                Err(
                    if tunnel {
                        "SOCKS proxy connect failed with code "@ + text::decimal(reply[1] as nat)
                    } else {
                        "SOCKS proxy connect rejected (code "@ + text::decimal(reply[1] as nat)
                            + ")"@
                    },
                )
            } else if reply[3] != 1 && reply[3] != 3 && reply[3] != 4 {
                Err("Unsupported SOCKS bound address type: "@ + text::decimal(reply[3] as nat))
            } else if reply[3] == 3 && reply.len() < 5 {
                Err(
                    if tunnel {
                        "Failed to read SOCKS bound address length: "@ + end
                    } else {
                        end
                    },
                )
            } else if reply[3] == 1 && reply.len() < 10 || reply[3] == 4 && reply.len() < 22
                || reply[3] == 3 && reply.len() < 7 + reply[4] {
                Err(
                    if tunnel {
                        "Failed to read SOCKS bound address: "@ + end
                    } else {
                        end
                    },
                )
            } else {
                Ok(())
            }
        },
{
    lemma_course_of_opening(purpose, proxy, remote, stream, end);
    if stream.len() >= 2 {
        let later = stream.skip(2);
        assert(stream.take(2)[0] == stream[0] && stream.take(2)[1] == stream[1]);
        lemma_result_of_reply(purpose, proxy, remote, later, end);
        let asked = socks5_course(
            Socks5Phase::Credentials,
            purpose,
            proxy,
            remote,
            later,
            end,
        );
        assert(asked == socks5_course(Socks5Phase::Verdict, purpose, proxy, remote, later, end));
        if stream.len() >= 4 {
            assert(later.take(2)[0] == stream[2] && later.take(2)[1] == stream[3]);
            assert(later.skip(2) =~= stream.skip(4));
            lemma_result_of_reply(purpose, proxy, remote, stream.skip(4), end);
        }
    }
}

/// A conversation dials no one: it is held on a connection that stands.
pub proof fn law_conversation_dials_no_one(
    phase: Socks5Phase,
    purpose: Purpose,
    proxy: ProxyView,
    remote: RemoteView,
    stream: Seq<u8>,
    end: Seq<char>,
)
    requires
        !(phase is Closed),
    ensures
        socks5_course(phase, purpose, proxy, remote, stream, end).dialled.len() == 0,
    decreases phases_left(phase),
{
    let event = wire::heard(phase_awaits(phase), stream, end);
    let (next, action) = socks5_step(phase, purpose, proxy, remote, event);
    law_conversation_ends(phase, purpose, proxy, remote, event);
    if !(action is Finish) {
        let rest = wire::left_unread(phase_awaits(phase), stream);
        law_conversation_dials_no_one(next, purpose, proxy, remote, rest, end);
    }
}

/// Who reads the messages of a conversation that succeeds finds the methods,
/// the credentials if the proxy chose them, and the remote host and port.
pub proof fn law_messages_are_read_back(
    purpose: Purpose,
    proxy: ProxyView,
    remote: RemoteView,
    stream: Seq<u8>,
    end: Seq<char>,
)
    ensures
        ({
            let course = socks5_course(Socks5Phase::Start, purpose, proxy, remote, stream, end);
            let sent = course.sent;
            course.result is Ok ==> {
                &&& sent.len() == if stream[1] == 2 {
                    3int
                } else {
                    2
                }
                &&& reading::methods_offered(sent[0]) == Some(
                    if proxy.username.len() == 0 && proxy.password.len() == 0 {
                        seq![0u8]
                    } else {
                        seq![0u8, 2u8]
                    },
                )
                &&& stream[1] == 2 ==> reading::credentials_carried(sent[1]) == Some(
                    (encode_utf8(proxy.username), encode_utf8(proxy.password)),
                )
                &&& reading::destination(sent.last()) == Some(
                    (encode_utf8(remote.host), remote.port as int),
                )
            }
        }),
{
    law_conversation_succeeds_iff_established(purpose, proxy, remote, stream, end);
    if establishes(proxy, remote, stream) {
        law_greeting_offers_what_there_is(proxy);
        law_destination_is_read_back(encode_utf8(remote.host), remote.port);
        if stream[1] == 2 {
            law_credentials_are_read_back(
                encode_utf8(proxy.username),
                encode_utf8(proxy.password),
            );
        }
    }
}

/// Every refusal has its words, and those that come from a byte of the proxy
/// give it: a probe always, a tunnel where the byte is not a version.
pub proof fn law_refusals_are_reported(n: u8)
    ensures
        refusal_text(Purpose::Tunnel, Refusal::GreetingVersion(n)) == "Invalid SOCKS proxy version"@,
        refusal_text(Purpose::Tunnel, Refusal::ReplyVersion(n))
            == "Invalid SOCKS connect response version"@,
        refusal_text(Purpose::Probe, Refusal::GreetingVersion(n))
            == "Invalid SOCKS proxy version: "@ + text::decimal(n as nat),
        refusal_text(Purpose::Probe, Refusal::ReplyVersion(n)) == "Invalid SOCKS proxy version: "@
            + text::decimal(n as nat),
        refusal_text(Purpose::Tunnel, Refusal::Rejected(n))
            == "SOCKS proxy connect failed with code "@ + text::decimal(n as nat),
        refusal_text(Purpose::Probe, Refusal::Rejected(n)) == "SOCKS proxy connect rejected (code "@
            + text::decimal(n as nat) + ")"@,
        forall|purpose: Purpose| #[trigger]
            refusal_text(purpose, Refusal::UnknownMethod(n))
                == "SOCKS proxy selected unsupported auth method: "@ + text::decimal(n as nat),
        forall|purpose: Purpose| #[trigger]
            refusal_text(purpose, Refusal::UnknownAddressType(n))
                == "Unsupported SOCKS bound address type: "@ + text::decimal(n as nat),
{
}

} // verus!
