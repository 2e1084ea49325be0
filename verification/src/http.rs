//! HTTP CONNECT: the request, the response and the conversation around them.

use crate::encoding;
use crate::endpoint::{ProxyEndpoint, ProxyView, Purpose, RemoteEndpoint, RemoteView};
use crate::reading;
use crate::text;
use crate::wire;
use crate::wire::{Action, ActionView, Awaiting, Course, Event, EventView};
use vstd::prelude::*;
use vstd::utf8::*;

verus! {

/// How many bytes of a response are read at most.
pub const RESPONSE_LIMIT: usize = 8192;

// ---------------------------------------------------------------------------
// The request
// ---------------------------------------------------------------------------

/// A host and a port, as an HTTP request names them.
pub open spec fn authority(host: Seq<char>, port: u16) -> Seq<char> {
    host + ":"@ + text::decimal(port as nat)
}

/// The lines that a request carries for its purpose, besides `Host` and the
/// credentials.
pub open spec fn purpose_lines(purpose: Purpose) -> Seq<Seq<char>> {
    match purpose {
        Purpose::Tunnel => seq![],
        Purpose::Probe => seq!["User-Agent: Mozilla/5.0"@, "Proxy-Connection: Keep-Alive"@],
    }
}

/// The line that carries `token`, if there is one.
pub open spec fn token_lines(token: Option<Seq<char>>) -> Seq<Seq<char>> {
    match token {
        Some(token) => seq!["Proxy-Authorization: Basic "@ + token],
        None => seq![],
    }
}

/// The lines of the CONNECT request for `target`.
pub open spec fn request_lines(
    purpose: Purpose,
    target: Seq<char>,
    token: Option<Seq<char>>,
) -> Seq<Seq<char>> {
    seq!["CONNECT "@ + target + " HTTP/1.1"@, "Host: "@ + target] + purpose_lines(purpose)
        + token_lines(token)
}

/// `lines`, each with its line ending.
pub open spec fn joined(lines: Seq<Seq<char>>) -> Seq<char>
    decreases lines.len(),
{
    if lines.len() == 0 {
        seq![]
    } else {
        joined(lines.drop_last()) + lines.last() + "\r\n"@
    }
}

/// The CONNECT request for `target`: its lines, then an empty line.
pub open spec fn request_text(
    purpose: Purpose,
    target: Seq<char>,
    token: Option<Seq<char>>,
) -> Seq<char> {
    joined(request_lines(purpose, target, token)) + "\r\n"@
}

/// The text that is encoded to make the token of Basic authentication.
pub open spec fn credentials(username: Seq<char>, password: Seq<char>) -> Seq<char> {
    username + ":"@ + password
}

/// The token of Basic authentication; none when both credentials are empty.
pub open spec fn token_of(username: Seq<char>, password: Seq<char>) -> Option<Seq<char>> {
    if username.len() == 0 && password.len() == 0 {
        None
    } else {
        Some(encoding::base64_text(encode_utf8(credentials(username, password))))
    }
}

/// Whether the token fits in a `String`.
pub open spec fn token_fits(username: Seq<char>, password: Seq<char>) -> bool {
    encoding::base64_len(encode_utf8(credentials(username, password)).len()) <= isize::MAX
}

/// Whether the token of Basic authentication fits in a `String`.
pub fn fits_in_token(username: &str, password: &str) -> (yes: bool)
    ensures
        yes == token_fits(username@, password@),
{
    proof {
        reveal_strlit(":");
        is_ascii_chars_encode_utf8(":"@);
        encoding::lemma_encode_concat(username@, ":"@);
        encoding::lemma_encode_concat(username@ + ":"@, password@);
    }
    let user = username.as_bytes().len() as u128;
    let pass = password.as_bytes().len() as u128;
    4 * ((user + 1 + pass + 2) / 3) <= isize::MAX as u128
}

/// Writes `host:port`.
pub fn authority_text(host: &str, port: u16) -> (target: String)
    ensures
        target@ == authority(host@, port),
{
    let mut target = host.to_owned();
    target.append(":");
    target.append(text::decimal_text(port).as_str());
    target
}

proof fn lemma_joined_push(lines: Seq<Seq<char>>, line: Seq<char>)
    ensures
        joined(lines.push(line)) == joined(lines) + line + "\r\n"@,
{
    assert(lines.push(line).drop_last() =~= lines);
}

/// Writes the CONNECT request for `target`, with `token` as its credentials.
pub fn connect_request(purpose: Purpose, target: &str, token: Option<&str>) -> (request: String)
    ensures
        request@ == request_text(
            purpose,
            target@,
            match token {
                Some(token) => Some(token@),
                None => None,
            },
        ),
{
    let ghost mut lines: Seq<Seq<char>> = seq![];
    let mut request = "CONNECT ".to_owned();
    request.append(target);
    request.append(" HTTP/1.1");
    request.append("\r\n");
    proof {
        let first = "CONNECT "@ + target@ + " HTTP/1.1"@;
        lemma_joined_push(lines, first);
        assert(request@ =~= joined(lines) + first + "\r\n"@);
        lines = lines.push(first);
    }
    request.append("Host: ");
    request.append(target);
    request.append("\r\n");
    proof {
        let host = "Host: "@ + target@;
        lemma_joined_push(lines, host);
        assert(request@ =~= joined(lines) + host + "\r\n"@);
        lines = lines.push(host);
    }
    match purpose {
        Purpose::Tunnel => {},
        Purpose::Probe => {
            request.append("User-Agent: Mozilla/5.0");
            request.append("\r\n");
            request.append("Proxy-Connection: Keep-Alive");
            request.append("\r\n");
            proof {
                lemma_joined_push(lines, "User-Agent: Mozilla/5.0"@);
                lines = lines.push("User-Agent: Mozilla/5.0"@);
                lemma_joined_push(lines, "Proxy-Connection: Keep-Alive"@);
                lines = lines.push("Proxy-Connection: Keep-Alive"@);
            }
        },
    }
    match token {
        Some(token) => {
            request.append("Proxy-Authorization: Basic ");
            request.append(token);
            request.append("\r\n");
            proof {
                let line = "Proxy-Authorization: Basic "@ + token@;
                lemma_joined_push(lines, line);
                assert(request@ =~= joined(lines) + line + "\r\n"@);
                lines = lines.push(line);
            }
        },
        None => {},
    }
    request.append("\r\n");
    assert(lines =~= request_lines(
        purpose,
        target@,
        match token {
            Some(token) => Some(token@),
            None => None,
        },
    ));
    request
}

/// Whether `text` holds no line ending, nor a part of one.
pub open spec fn unbroken(text: Seq<char>) -> bool {
    forall|i: int| 0 <= i < text.len() ==> #[trigger] text[i] != '\r' && text[i] != '\n'
}

/// Whether an empty line follows a line in `text` from index `i`.
pub open spec fn blank_line_at(text: Seq<char>, i: int) -> bool {
    &&& 0 <= i <= text.len() - 4
    &&& text[i] == '\r'
    &&& text[i + 1] == '\n'
    &&& text[i + 2] == '\r'
    &&& text[i + 3] == '\n'
}

/// Whether `text` ends with an empty line and holds no other.
pub open spec fn ends_once(text: Seq<char>) -> bool {
    forall|i: int| #[trigger] blank_line_at(text, i) <==> i == text.len() - 4
}

proof fn lemma_joined_holds_no_blank_line(lines: Seq<Seq<char>>)
    requires
        forall|k: int|
            0 <= k < lines.len() ==> (#[trigger] lines[k]).len() > 0 && unbroken(lines[k]),
    ensures
        forall|i: int| !#[trigger] blank_line_at(joined(lines), i),
        lines.len() > 0 ==> {
            let text = joined(lines);
            &&& text.len() >= 3
            &&& text[text.len() - 3] != '\n'
            &&& text[text.len() - 2] == '\r'
            &&& text[text.len() - 1] == '\n'
        },
    decreases lines.len(),
{
    reveal_strlit("\r\n");
    if lines.len() > 0 {
        let front = lines.drop_last();
        let line = lines.last();
        assert(line == lines[lines.len() - 1]);
        assert forall|k: int| 0 <= k < front.len() implies (#[trigger] front[k]).len() > 0
            && unbroken(front[k]) by {
            assert(front[k] == lines[k]);
        }
        lemma_joined_holds_no_blank_line(front);
        let before = joined(front);
        let text = joined(lines);
        let at = before.len() as int;
        let end = at + line.len();
        assert(text =~= before + line + "\r\n"@);
        assert forall|i: int| 0 <= i < line.len() implies text[at + i] == line[i] by {}
        assert forall|i: int| !#[trigger] blank_line_at(text, i) by {
            if blank_line_at(text, i) {
                if i + 2 < at {
                    assert(text[i + 2] == before[i + 2]);
                    assert(i + 3 < at);
                    assert(blank_line_at(before, i));
                } else if i < at {
                    if i + 2 < end {
                        assert(text[i + 2] == line[i + 2 - at]);
                    }
                } else if i < end {
                    assert(text[i] == line[i - at]);
                }
            }
        }
        assert(text[end - 1] == line[line.len() - 1]);
    }
}

/// A request for a target and a token without line endings is one header
/// section: the empty line that ends it is the only one in it.
pub proof fn law_request_ends_once(
    purpose: Purpose,
    target: Seq<char>,
    token: Option<Seq<char>>,
)
    requires
        unbroken(target),
        token matches Some(token) ==> unbroken(token),
    ensures
        ends_once(request_text(purpose, target, token)),
{
    reveal_strlit("\r\n");
    reveal_strlit("CONNECT ");
    reveal_strlit(" HTTP/1.1");
    reveal_strlit("Host: ");
    reveal_strlit("User-Agent: Mozilla/5.0");
    reveal_strlit("Proxy-Connection: Keep-Alive");
    reveal_strlit("Proxy-Authorization: Basic ");
    let lines = request_lines(purpose, target, token);
    let body = joined(lines);
    let text = request_text(purpose, target, token);
    lemma_joined_holds_no_blank_line(lines);
    assert(text =~= body + "\r\n"@);
    assert forall|i: int| #[trigger] blank_line_at(text, i) <==> i == text.len() - 4 by {
        if blank_line_at(text, i) && i < text.len() - 4 {
            assert(text[i] == body[i]);
            if i + 4 <= body.len() {
                assert(blank_line_at(body, i));
            } else {
                assert(i + 3 == body.len());
            }
        }
    }
}

/// Writes the CONNECT request for `target`, with the credentials given: the
/// authorization header is there unless both are empty.
pub fn authorized_request(
    purpose: Purpose,
    target: &str,
    username: &str,
    password: &str,
) -> (request: String)
    requires
        token_fits(username@, password@),
    ensures
        request@ == request_text(purpose, target@, token_of(username@, password@)),
        unbroken(target@) ==> ends_once(request@),
        unbroken(target@) ==> reads_as_request(request@, target@, username@, password@),
{
    proof {
        if unbroken(target@) {
            lemma_reads_as_request(purpose, target@, username@, password@);
        }
        if unbroken(target@) && username@.len() == 0 && password@.len() == 0 {
            law_request_ends_once(purpose, target@, None);
        }
    }
    if username.is_empty() && password.is_empty() {
        connect_request(purpose, target, None)
    } else {
        let mut pair = username.to_owned();
        pair.append(":");
        pair.append(password);
        let token = encoding::encode_base64(pair.as_str().as_bytes());
        proof {
            assert(pair@ =~= credentials(username@, password@));
            encoding::law_base64_shape(encode_utf8(pair@));
            assert(unbroken(token@)) by {
                assert forall|i: int| 0 <= i < token@.len() implies #[trigger] token@[i] != '\r'
                    && token@[i] != '\n' by {
                    assert(encoding::is_base64_char(token@[i]));
                }
            }
            if unbroken(target@) {
                law_request_ends_once(purpose, target@, Some(token@));
            }
        }
        connect_request(purpose, target, Some(token.as_str()))
    }
}

/// The token fixes the credentials: two pairs have the same token only if they
/// are written the same, with the colon between them.
pub proof fn law_token_fixes_credentials(
    username: Seq<char>,
    password: Seq<char>,
    other_username: Seq<char>,
    other_password: Seq<char>,
)
    requires
        token_of(username, password) == token_of(other_username, other_password),
    ensures
        credentials(username, password) == credentials(other_username, other_password),
        !username.contains(':') && !other_username.contains(':') ==> username == other_username
            && password == other_password,
{
    reveal_strlit(":");
    let one = credentials(username, password);
    let two = credentials(other_username, other_password);
    if token_of(username, password) is Some {
        encoding::law_base64_is_injective(encode_utf8(one), encode_utf8(two));
        encode_utf8_decode_utf8(one);
        encode_utf8_decode_utf8(two);
    } else {
        assert(username =~= other_username);
        assert(password =~= other_password);
    }
    if !username.contains(':') && !other_username.contains(':') {
        let m = username.len() as int;
        let n = other_username.len() as int;
        assert(one[m] == ':' && two[n] == ':');
        if m < n {
            assert(two[m] == other_username[m]);
        } else if n < m {
            assert(one[n] == username[n]);
        }
        assert(username =~= one.take(m));
        assert(other_username =~= two.take(n));
        assert(password =~= one.skip(m + 1));
        assert(other_password =~= two.skip(n + 1));
    }
}

// ---------------------------------------------------------------------------
// The response
// ---------------------------------------------------------------------------

/// Whether a response lets the tunnel through: it reports status 200 in
/// HTTP/1.0 or HTTP/1.1.
pub open spec fn grants_tunnel(response: Seq<char>) -> bool {
    "HTTP/1.1 200"@.is_prefix_of(response) || "HTTP/1.0 200"@.is_prefix_of(response)
}

/// How a tunnel judges the text of a response.
pub open spec fn tunnel_verdict(response: Seq<char>) -> Result<(), Seq<char>> {
    if grants_tunnel(response) {
        Ok(())
    } else if response.len() == 0 {
        Err("HTTP proxy CONNECT failed: "@ + "invalid proxy response"@)
    } else {
        Err("HTTP proxy CONNECT failed: "@ + text::line_of(response))
    }
}

/// The status code that a status line reports. There is none unless the line
/// begins with an HTTP/1 version and a space.
pub open spec fn status_code(line: Seq<char>) -> Option<u16> {
    if line.contains(' ') && "HTTP/1."@.is_prefix_of(text::before(line, ' ')) {
        text::number16(text::before(text::after(line, ' '), ' '))
    } else {
        None
    }
}

/// Whether a status code may be followed by `rest`: by nothing, a space or a
/// line ending.
pub open spec fn ends_status(rest: Seq<char>) -> bool {
    ||| rest.len() == 0
    ||| rest[0] == ' '
    ||| rest[0] == '\n'
    ||| rest.len() >= 2 && rest[0] == '\r' && rest[1] == '\n'
}

/// The beginning of a response: an HTTP/1 version, a status code and what ends
/// it.
pub open spec fn status_line(minor: Seq<char>, code: u16, rest: Seq<char>) -> Seq<char> {
    "HTTP/1."@ + minor + " "@ + text::decimal(code as nat) + rest
}

/// How a probe judges the text of a response: by the status code in its first
/// line, which must be of the 2xx class.
pub open spec fn probe_verdict(response: Seq<char>) -> Result<Seq<char>, Seq<char>> {
    let line = text::line_of(response);
    match status_code(line) {
        Some(code) => if 200 <= code < 300 {
            Ok(
                "HTTP CONNECT proxy connection successful ("@ + text::decimal(code as nat) + ")"@,
            )
        } else {
            Err("HTTP proxy CONNECT failed: "@ + ("HTTP "@ + text::decimal(code as nat)))
        },
        None => Err("HTTP proxy CONNECT failed: "@ + line),
    }
}

fn connect_failed(reason: &str) -> (message: String)
    ensures
        message@ == "HTTP proxy CONNECT failed: "@ + reason@,
{
    text::prefixed("HTTP proxy CONNECT failed: ", reason)
}

/// Judges the text of a response for a tunnel.
pub fn judge_for_tunnel(response: &str) -> (verdict: Result<(), String>)
    ensures
        wire::result_view(verdict) == tunnel_verdict(response@),
{
    if text::starts_with(response, "HTTP/1.1 200") || text::starts_with(response, "HTTP/1.0 200") {
        Ok(())
    } else if response.is_empty() {
        Err(connect_failed("invalid proxy response"))
    } else {
        Err(connect_failed(text::first_line(response)))
    }
}

/// Judges the text of a response for a probe.
pub fn judge_for_probe(response: &str) -> (verdict: Result<String, String>)
    ensures
        wire::result_view(verdict) == probe_verdict(response@),
{
    let line = text::first_line(response);
    if !text::contains(line, ' ') || !text::starts_with(text::head(line, ' '), "HTTP/1.") {
        return Err(connect_failed(line));
    }
    match text::parse_u16(text::head(text::tail(line, ' '), ' ')) {
        Some(code) => {
            let number = text::decimal_text(code);
            if 200 <= code && code < 300 {
                let mut message = "HTTP CONNECT proxy connection successful (".to_owned();
                message.append(number.as_str());
                message.append(")");
                Ok(message)
            } else {
                Err(connect_failed(text::prefixed("HTTP ", number.as_str()).as_str()))
            }
        },
        None => Err(connect_failed(line)),
    }
}

/// The bytes of ASCII text.
pub open spec fn ascii(chars: Seq<char>) -> Seq<u8> {
    Seq::new(chars.len(), |i: int| chars[i] as u8)
}

/// Whether `verdict` is what a tunnel owes the bytes of `response`: it accepts
/// exactly those that begin with an accepted status line, and judges by the
/// first line alone. What it says of a first line that is not valid UTF-8 is
/// left open, beyond its refusal.
pub open spec fn is_tunnel_verdict(response: Seq<u8>, verdict: Result<(), Seq<char>>) -> bool {
    &&& verdict is Ok <==> ascii("HTTP/1.1 200"@).is_prefix_of(response) || ascii(
        "HTTP/1.0 200"@,
    ).is_prefix_of(response)
    &&& valid_utf8(response) ==> verdict == tunnel_verdict(decode_utf8(response))
    &&& forall|line: Seq<u8>| #[trigger]
        encoding::begins_with_line(response, line) ==> verdict == tunnel_verdict(
            decode_utf8(line).push('\n'),
        )
}

/// Whether `action` ends a tunnel's handshake as the bytes of `response` call
/// for.
pub open spec fn is_tunnel_judgement(response: Seq<u8>, action: ActionView<()>) -> bool {
    &&& action matches ActionView::Finish(verdict)
    &&& encoding::lossy_text_of(response, encoding::utf8_lossy(response))
    &&& is_tunnel_verdict(response, verdict)
}

/// Judges the bytes of a response for a tunnel. The tunnel stands exactly when
/// they begin with one of the two accepted status lines, whatever follows.
pub fn accept_connect_response(response: &[u8]) -> (verdict: Result<(), String>)
    ensures
        wire::result_view(verdict) == tunnel_verdict(encoding::utf8_lossy(response@)),
        encoding::lossy_text_of(response@, encoding::utf8_lossy(response@)),
        is_tunnel_verdict(response@, wire::result_view(verdict)),
{
    let decoded = encoding::decode_lossy(response);
    proof {
        lemma_tunnel_verdict(response@, decoded@);
    }
    judge_for_tunnel(decoded.as_str())
}

/// Whether acceptance of `response` goes by the code in its status line alone,
/// whatever bytes follow that line's code.
pub open spec fn status_decides(response: Seq<u8>, accepted: bool) -> bool {
    forall|minor: Seq<char>, code: u16, ending: Seq<char>|
        ascii(#[trigger] status_line(minor, code, ending)).is_prefix_of(response)
            && is_ascii_chars(minor) && !minor.contains(' ') && !minor.contains('\n')
            && is_ascii_chars(ending) && ending.len() > 0 && ends_status(ending) ==> (accepted
            <==> 200 <= code < 300)
}

/// Whether `head` reaches past the second field of a first line, in which the
/// status code stands.
pub open spec fn ends_code(head: Seq<char>) -> bool {
    &&& !head.contains('\n')
    &&& head.contains(' ')
    &&& text::after(head, ' ').contains(' ')
}

/// Whether `verdict` goes by the code in a valid beginning of `response`,
/// whatever bytes follow it, once the code is ended.
pub open spec fn code_decides(
    response: Seq<u8>,
    head: Seq<u8>,
    verdict: Result<Seq<char>, Seq<char>>,
) -> bool {
    valid_utf8(head) && head.is_prefix_of(response) && ends_code(decode_utf8(head)) ==> match
        status_code(decode_utf8(head)) {
        Some(_) => verdict == probe_verdict(decode_utf8(head)),
        None => verdict is Err,
    }
}

/// Whether `response` turns invalid after `head`, in the middle of the second
/// field of its first line.
pub open spec fn breaks_code(response: Seq<u8>, head: Seq<u8>) -> bool {
    &&& valid_utf8(head)
    &&& head.is_prefix_of(response)
    &&& head.len() < response.len()
    &&& !valid_first_scalar(response.subrange(head.len() as int, response.len() as int))
    &&& in_code(decode_utf8(head))
}

/// Whether `head` ends in the second field of a first line.
pub open spec fn in_code(head: Seq<char>) -> bool {
    &&& !head.contains('\n')
    &&& head.contains(' ')
    &&& !text::after(head, ' ').contains(' ')
}

/// Whether `verdict` is what a probe owes the bytes of `response`: it accepts
/// by the code in their status line, and judges by the first line alone. Of a
/// first line that is not valid UTF-8 two things are left open: the verdict, if
/// the line turns invalid in its HTTP version, and the text of a refusal that
/// finds no code.
pub open spec fn is_probe_verdict(
    response: Seq<u8>,
    verdict: Result<Seq<char>, Seq<char>>,
) -> bool {
    &&& status_decides(response, verdict is Ok)
    &&& verdict is Ok ==> ascii("HTTP/1."@).is_prefix_of(response)
    &&& forall|head: Seq<u8>| #[trigger] code_decides(response, head, verdict)
    &&& forall|head: Seq<u8>| #[trigger] breaks_code(response, head) ==> verdict is Err
    &&& valid_utf8(response) ==> verdict == probe_verdict(decode_utf8(response))
    &&& forall|line: Seq<u8>| #[trigger]
        encoding::begins_with_line(response, line) ==> verdict == probe_verdict(
            decode_utf8(line).push('\n'),
        )
}

/// Judges the bytes of a response for a probe: the HTTP version and the status
/// in its first line, which must be of the 2xx class.
pub fn parse_http_connect_response(response: &[u8]) -> (verdict: Result<String, String>)
    ensures
        wire::result_view(verdict) == probe_verdict(encoding::utf8_lossy(response@)),
        encoding::lossy_text_of(response@, encoding::utf8_lossy(response@)),
        is_probe_verdict(response@, wire::result_view(verdict)),
{
    let decoded = encoding::decode_lossy(response);
    proof {
        lemma_probe_verdict(response@, decoded@);
    }
    judge_for_probe(decoded.as_str())
}

proof fn lemma_line_decides(bytes: Seq<u8>, text: Seq<char>, line: Seq<u8>)
    requires
        encoding::lossy_text_of(bytes, text),
        encoding::begins_with_line(bytes, line),
    ensures
        tunnel_verdict(text) == tunnel_verdict(decode_utf8(line).push('\n')),
        probe_verdict(text) == probe_verdict(decode_utf8(line).push('\n')),
{
    let chars = decode_utf8(line);
    let ended = chars.push('\n');
    let n = ended.len() as int;
    encoding::lemma_lossy_line(bytes, text, line);
    assert(text =~= text.subrange(0, n) + text.skip(n));
    assert(ended + text.skip(n) =~= chars + seq!['\n'] + text.skip(n));
    assert(ended =~= chars + seq!['\n'] + Seq::<char>::empty());
    law_only_the_first_line_counts(chars, text.skip(n), seq![]);
}

/// The verdict of a tunnel on lossy text is what it owes the bytes.
pub(crate) proof fn lemma_tunnel_verdict(bytes: Seq<u8>, text: Seq<char>)
    requires
        encoding::lossy_text_of(bytes, text),
    ensures
        is_tunnel_verdict(bytes, tunnel_verdict(text)),
{
    reveal_strlit("HTTP/1.1 200");
    reveal_strlit("HTTP/1.0 200");
    lemma_lossy_of_valid(bytes, text);
    lemma_ascii_prefix(bytes, text, "HTTP/1.1 200"@);
    lemma_ascii_prefix(bytes, text, "HTTP/1.0 200"@);
    assert forall|line: Seq<u8>| #[trigger]
        encoding::begins_with_line(bytes, line) implies tunnel_verdict(text) == tunnel_verdict(
        decode_utf8(line).push('\n'),
    ) by {
        lemma_line_decides(bytes, text, line);
    }
}

/// The verdict of a probe on lossy text is what it owes the bytes.
pub(crate) proof fn lemma_probe_verdict(bytes: Seq<u8>, text: Seq<char>)
    requires
        encoding::lossy_text_of(bytes, text),
    ensures
        is_probe_verdict(bytes, probe_verdict(text)),
{
    assert forall|minor: Seq<char>, code: u16, ending: Seq<char>|
        ascii(#[trigger] status_line(minor, code, ending)).is_prefix_of(bytes) && is_ascii_chars(
            minor,
        ) && !minor.contains(' ') && !minor.contains('\n') && is_ascii_chars(ending)
            && ending.len() > 0 && ends_status(ending) implies probe_verdict(text) is Ok <==> 200
        <= code < 300 by {
        lemma_probe_of_status_line(bytes, text, minor, code, ending);
    }
    assert forall|head: Seq<u8>| #[trigger] code_decides(bytes, head, probe_verdict(text)) by {
        let begun = decode_utf8(head);
        if valid_utf8(head) && head.is_prefix_of(bytes) && ends_code(begun) {
            let n = begun.len() as int;
            encoding::lemma_lossy_beginning(bytes, text, head);
            assert(text =~= text.subrange(0, n) + text.skip(n));
            law_nothing_after_the_code_counts(begun, text.skip(n));
        }
    }
    assert forall|head: Seq<u8>| #[trigger] breaks_code(bytes, head) implies probe_verdict(
        text,
    ) is Err by {
        let begun = decode_utf8(head);
        let n = begun.len() as int;
        encoding::lemma_lossy_break(bytes, text, head);
        assert(text =~= text.subrange(0, n) + seq!['\u{FFFD}'] + text.skip(n + 1));
        law_broken_code_is_refused(begun, '\u{FFFD}', text.skip(n + 1));
    }
    lemma_lossy_of_valid(bytes, text);
    reveal_strlit("HTTP/1.");
    lemma_ascii_prefix(bytes, text, "HTTP/1."@);
    let first = text::line_of(text);
    text::lemma_position(text, '\n');
    text::lemma_position(first, ' ');
    assert(first.is_prefix_of(text));
    assert(text::before(first, ' ').is_prefix_of(text));
    assert forall|line: Seq<u8>| #[trigger]
        encoding::begins_with_line(bytes, line) implies probe_verdict(text) == probe_verdict(
        decode_utf8(line).push('\n'),
    ) by {
        lemma_line_decides(bytes, text, line);
    }
}

proof fn lemma_probe_of_status_line(
    bytes: Seq<u8>,
    text: Seq<char>,
    minor: Seq<char>,
    code: u16,
    ending: Seq<char>,
)
    requires
        encoding::lossy_text_of(bytes, text),
        ascii(status_line(minor, code, ending)).is_prefix_of(bytes),
        is_ascii_chars(minor),
        !minor.contains(' '),
        !minor.contains('\n'),
        is_ascii_chars(ending),
        ending.len() > 0,
        ends_status(ending),
    ensures
        probe_verdict(text) is Ok <==> 200 <= code < 300,
{
    reveal_strlit("HTTP/1.");
    reveal_strlit(" ");
    let prefix = status_line(minor, code, ending);
    let number = text::decimal(code as nat);
    text::lemma_decimal_digits(code as nat);
    let at = minor.len() as int + 8;
    assert(is_ascii_chars(prefix)) by {
        assert forall|i: int| 0 <= i < prefix.len() implies '\0' <= #[trigger] prefix[i]
            <= '\u{7f}' by {
            if 7 <= i < at - 1 {
                assert(prefix[i] == minor[i - 7]);
            } else if at <= i < at + number.len() {
                assert(prefix[i] == number[i - at]);
            } else if at + number.len() <= i {
                assert(prefix[i] == ending[i - at - number.len()]);
            }
        }
    }
    lemma_ascii_prefix(bytes, text, prefix);
    let rest = ending + text.skip(prefix.len() as int);
    assert(status_line(minor, code, rest) =~= prefix + text.skip(prefix.len() as int));
    assert(text =~= text.subrange(0, prefix.len() as int) + text.skip(prefix.len() as int));
    law_probe_judges_by_status(minor, code, rest);
}

proof fn lemma_lossy_of_valid(bytes: Seq<u8>, text: Seq<char>)
    requires
        encoding::lossy_text_of(bytes, text),
    ensures
        valid_utf8(bytes) ==> text == decode_utf8(bytes),
{
    assert(bytes.subrange(0, bytes.len() as int) =~= bytes);
    if valid_utf8(bytes) {
        assert(partial_valid_utf8(bytes, bytes.len() as int));
    }
}

proof fn lemma_ascii_prefix(bytes: Seq<u8>, text: Seq<char>, prefix: Seq<char>)
    requires
        encoding::lossy_text_of(bytes, text),
        is_ascii_chars(prefix),
    ensures
        prefix.is_prefix_of(text) <==> ascii(prefix).is_prefix_of(bytes),
{
    encoding::lemma_lossy_ascii_prefix(bytes, text, prefix);
    is_ascii_chars_encode_utf8(prefix);
    assert(ascii(prefix) =~= encode_utf8(prefix));
}

// ---------------------------------------------------------------------------
// The conversation
// ---------------------------------------------------------------------------

/// Where an exchange of request and response stands.
#[derive(Debug, PartialEq, Eq)]
pub enum HttpExchange {
    /// Nothing was sent yet.
    Start,
    /// The request is on its way.
    Request,
    /// These bytes of the response were received.
    Response(Vec<u8>),
    /// The exchange is over.
    Closed,
}

/// The model of an [`HttpExchange`].
pub enum ExchangeView {
    Start,
    Request,
    Response(Seq<u8>),
    Closed,
}

impl View for HttpExchange {
    type V = ExchangeView;

    open spec fn view(&self) -> ExchangeView {
        match *self {
            HttpExchange::Start => ExchangeView::Start,
            HttpExchange::Request => ExchangeView::Request,
            HttpExchange::Response(response) => ExchangeView::Response(response@),
            HttpExchange::Closed => ExchangeView::Closed,
        }
    }
}

impl ExchangeView {
    /// The answer that the exchange waits for.
    pub open spec fn awaits(self) -> Awaiting {
        match self {
            ExchangeView::Start => Awaiting::Start,
            ExchangeView::Request => Awaiting::Sending,
            ExchangeView::Response(_) => Awaiting::Byte,
            ExchangeView::Closed => Awaiting::Nothing,
        }
    }
}

impl HttpExchange {
    /// The answer that the exchange waits for.
    pub fn awaits(&self) -> (awaiting: Awaiting)
        ensures
            awaiting == self@.awaits(),
    {
        match self {
            HttpExchange::Start => Awaiting::Start,
            HttpExchange::Request => Awaiting::Sending,
            HttpExchange::Response(_) => Awaiting::Byte,
            HttpExchange::Closed => Awaiting::Nothing,
        }
    }
}

/// Whether `response` ends with the empty line that ends a header section.
pub open spec fn is_complete(response: Seq<u8>) -> bool {
    &&& response.len() >= 4
    &&& response[response.len() - 4] == 13
    &&& response[response.len() - 3] == 10
    &&& response[response.len() - 2] == 13
    &&& response[response.len() - 1] == 10
}

/// Whether another byte is to be read after `response`.
pub open spec fn wants_more(response: Seq<u8>, max_size: nat) -> bool {
    !is_complete(response) && response.len() < max_size
}

/// What follows once `response` was read: another byte, or the end.
pub open spec fn response_read(response: Seq<u8>, max_size: nat) -> (
    ExchangeView,
    ActionView<Seq<u8>>,
) {
    if wants_more(response, max_size) {
        (ExchangeView::Response(response), ActionView::ReceiveByte)
    } else {
        (ExchangeView::Closed, ActionView::Finish(Ok(response)))
    }
}

/// How a failure to send the request is reported.
pub open spec fn send_failure(purpose: Purpose, reason: Seq<char>) -> Seq<char> {
    match purpose {
        Purpose::Tunnel => "Failed to send CONNECT request: "@ + reason,
        Purpose::Probe => reason,
    }
}

/// How a failure to read the response is reported.
pub open spec fn read_failure(purpose: Purpose, reason: Seq<char>) -> Seq<char> {
    match purpose {
        Purpose::Tunnel => "Failed to read CONNECT response: "@ + reason,
        Purpose::Probe => reason,
    }
}

/// The step of an exchange: `request` is sent, then the response is read byte
/// by byte until it is complete, the limit is reached or the stream ends.
pub open spec fn exchange_step(
    exchange: ExchangeView,
    purpose: Purpose,
    request: Seq<char>,
    event: EventView,
) -> (ExchangeView, ActionView<Seq<u8>>) {
    match (exchange, event) {
        (ExchangeView::Start, EventView::Started) => (
            ExchangeView::Request,
            ActionView::Send(encode_utf8(request)),
        ),
        (ExchangeView::Request, EventView::Sent) => response_read(
            seq![],
            RESPONSE_LIMIT as nat,
        ),
        (ExchangeView::Request, EventView::Failed(reason)) => (
            ExchangeView::Closed,
            ActionView::Finish(Err(send_failure(purpose, reason))),
        ),
        (ExchangeView::Response(response), EventView::Received(bytes)) => if bytes.len() == 0 {
            (ExchangeView::Closed, ActionView::Finish(Ok(response)))
        } else {
            response_read(response + bytes, RESPONSE_LIMIT as nat)
        },
        (ExchangeView::Response(_), EventView::Failed(reason)) => (
            ExchangeView::Closed,
            ActionView::Finish(Err(read_failure(purpose, reason))),
        ),
        _ => arbitrary(),
    }
}

/// Decides what follows once `response` was read: another byte, unless it ends
/// with an empty line or holds `max_size` bytes.
pub fn read_http_response(response: Vec<u8>, max_size: usize) -> (next: (
    HttpExchange,
    Action<Vec<u8>>,
))
    ensures
        (next.0@, next.1@) == response_read(response@, max_size as nat),
{
    let len = response.len();
    let complete = len >= 4 && response[len - 4] == 13 && response[len - 3] == 10 && response[len
        - 2] == 13 && response[len - 1] == 10;
    if !complete && len < max_size {
        (HttpExchange::Response(response), Action::ReceiveByte)
    } else {
        (HttpExchange::Closed, Action::Finish(Ok(response)))
    }
}

/// Takes the next step of an exchange. The result is the response, as far as
/// it was read.
pub fn advance_exchange(
    exchange: HttpExchange,
    purpose: Purpose,
    request: &str,
    event: Event,
) -> (next: (HttpExchange, Action<Vec<u8>>))
    requires
        wire::is_answer(exchange@.awaits(), event@),
    ensures
        (next.0@, next.1@) == exchange_step(exchange@, purpose, request@, event@),
        next.0@.awaits() == wire::awaited_by(next.1@),
{
    match (exchange, event) {
        (HttpExchange::Start, _) => (
            HttpExchange::Request,
            Action::Send(encoding::bytes_of(request)),
        ),
        (HttpExchange::Request, Event::Failed(reason)) => {
            let message = match purpose {
                Purpose::Tunnel => text::prefixed("Failed to send CONNECT request: ", reason.as_str()),
                Purpose::Probe => reason,
            };
            (HttpExchange::Closed, Action::Finish(Err(message)))
        },
        (HttpExchange::Request, _) => read_http_response(Vec::new(), RESPONSE_LIMIT),
        (HttpExchange::Response(response), Event::Received(bytes)) => {
            if bytes.len() == 0 {
                (HttpExchange::Closed, Action::Finish(Ok(response)))
            } else {
                let mut longer = response;
                longer.push(bytes[0]);
                assert(longer@ =~= response@ + bytes@);
                read_http_response(longer, RESPONSE_LIMIT)
            }
        },
        (HttpExchange::Response(_), Event::Failed(reason)) => {
            let message = match purpose {
                Purpose::Tunnel => text::prefixed("Failed to read CONNECT response: ", reason.as_str()),
                Purpose::Probe => reason,
            };
            (HttpExchange::Closed, Action::Finish(Err(message)))
        },
        _ => unreached(),
    }
}

/// The request that a tunnel sends to its proxy.
pub open spec fn tunnel_request(proxy: ProxyView, remote: RemoteView) -> Seq<char> {
    request_text(
        Purpose::Tunnel,
        authority(remote.host, remote.port),
        token_of(proxy.username, proxy.password),
    )
}

/// The step of opening a tunnel through an HTTP proxy: the request and the
/// response are exchanged, then the response is judged.
pub open spec fn http_connect_step(
    exchange: ExchangeView,
    proxy: ProxyView,
    remote: RemoteView,
    event: EventView,
) -> (ExchangeView, ActionView<()>) {
    let (next, action) = exchange_step(
        exchange,
        Purpose::Tunnel,
        tunnel_request(proxy, remote),
        event,
    );
    (
        next,
        wire::concluded(
            action,
            |response: Seq<u8>| tunnel_verdict(encoding::utf8_lossy(response)),
        ),
    )
}

/// Takes the next step of opening a tunnel through an HTTP proxy. The tunnel
/// stands exactly when the response begins with one of the two accepted status
/// lines.
pub fn http_connect(
    exchange: HttpExchange,
    proxy: &ProxyEndpoint,
    remote: &RemoteEndpoint,
    event: Event,
) -> (next: (HttpExchange, Action<()>))
    requires
        wire::is_answer(exchange@.awaits(), event@),
        exchange@ is Start ==> token_fits(proxy@.username, proxy@.password),
    ensures
        (next.0@, next.1@) == http_connect_step(exchange@, proxy@, remote@, event@),
        next.0@.awaits() == wire::awaited_by(next.1@),
        exchange_step(exchange@, Purpose::Tunnel, tunnel_request(proxy@, remote@), event@).1
            matches ActionView::Finish(Ok(response)) ==> is_tunnel_judgement(response, next.1@),
        exchange@ is Start ==> (next.1@ matches ActionView::Send(bytes) && (unbroken(
            remote@.host,
        ) ==> reads_as_request(
            decode_utf8(bytes),
            remote@.host + seq![':'] + text::decimal(remote@.port as nat),
            proxy@.username,
            proxy@.password,
        ))),
{
    proof {
        law_tunnel_asks_for_its_remote(proxy@, remote@);
    }
    let request = match exchange {
        HttpExchange::Start => authorized_request(
            Purpose::Tunnel,
            authority_text(remote.host.as_str(), remote.port).as_str(),
            proxy.username.as_str(),
            proxy.password.as_str(),
        ),
        _ => String::new(),
    };
    let (next, action) = advance_exchange(exchange, Purpose::Tunnel, request.as_str(), event);
    let concluded = match action {
        Action::Connect { host, port } => Action::Connect { host, port },
        Action::Send(bytes) => Action::Send(bytes),
        Action::Receive(count) => Action::Receive(count),
        Action::ReceiveByte => Action::ReceiveByte,
        Action::Finish(Ok(response)) => Action::Finish(
            accept_connect_response(response.as_slice()),
        ),
        Action::Finish(Err(reason)) => Action::Finish(Err(reason)),
    };
    (next, concluded)
}

// ---------------------------------------------------------------------------
// Laws
// ---------------------------------------------------------------------------

/// Whether `response` is what is read of `stream`: the shortest prefix after
/// which nothing more is wanted, or all of `stream` if there is none.
pub open spec fn is_response_of(response: Seq<u8>, stream: Seq<u8>, max_size: nat) -> bool {
    &&& response.is_prefix_of(stream)
    &&& forall|k: int|
        0 <= k < response.len() ==> wants_more(#[trigger] stream.take(k), max_size)
    &&& !wants_more(response, max_size) || response == stream
}

/// How many stages of an exchange may still follow.
pub open spec fn stages_left(exchange: ExchangeView) -> nat {
    match exchange {
        ExchangeView::Start => 3,
        ExchangeView::Request => 2,
        ExchangeView::Response(_) => 1,
        ExchangeView::Closed => 0,
    }
}

/// The course of an exchange with a proxy that takes the request, answers with
/// `stream` and closes.
pub open spec fn exchange_course(
    exchange: ExchangeView,
    purpose: Purpose,
    request: Seq<char>,
    stream: Seq<u8>,
    end: Seq<char>,
) -> Course<Seq<u8>>
    decreases stream.len(), stages_left(exchange),
{
    let awaiting = exchange.awaits();
    let (next, action) = exchange_step(
        exchange,
        purpose,
        request,
        wire::heard(awaiting, stream, end),
    );
    let rest = wire::left_unread(awaiting, stream);
    let later = if rest.len() < stream.len() || rest.len() == stream.len() && stages_left(next)
        < stages_left(exchange) {
        exchange_course(next, purpose, request, rest, end)
    } else {
        arbitrary()
    };
    wire::continued(action, rest, later)
}

/// What reading comes to when `response` was read already and the proxy sends
/// `stream` and closes: the response, and the part of `stream` that is left.
pub open spec fn reading_course(response: Seq<u8>, max_size: nat, stream: Seq<u8>) -> (
    Seq<u8>,
    Seq<u8>,
)
    decreases stream.len(),
{
    match response_read(response, max_size).1 {
        ActionView::Finish(Ok(whole)) => (whole, stream),
        _ => if stream.len() == 0 {
            (response, stream)
        } else {
            reading_course(response + stream.take(1), max_size, stream.skip(1))
        },
    }
}

proof fn lemma_reading_course(max_size: nat, whole: Seq<u8>, at: int)
    requires
        0 <= at <= whole.len(),
        forall|k: int| 0 <= k < at ==> wants_more(#[trigger] whole.take(k), max_size),
    ensures
        ({
            let (response, rest) = reading_course(whole.take(at), max_size, whole.skip(at));
            &&& is_response_of(response, whole, max_size)
            &&& response + rest == whole
        }),
    decreases whole.len() - at,
{
    let response = whole.take(at);
    let stream = whole.skip(at);
    assert(response + stream =~= whole);
    assert(response =~= whole.subrange(0, at));
    if wants_more(response, max_size) {
        if stream.len() == 0 {
            assert(response =~= whole);
        } else {
            assert(response + stream.take(1) =~= whole.take(at + 1));
            assert(stream.skip(1) =~= whole.skip(at + 1));
            lemma_reading_course(max_size, whole, at + 1);
        }
    }
}

/// Whatever limit is set, reading gives the response and takes not a byte more:
/// the shortest prefix of the stream that ends with an empty line or reaches
/// the limit, or all of the stream if there is none.
pub proof fn law_reading_stops_at_the_response(max_size: nat, stream: Seq<u8>)
    ensures
        ({
            let (response, rest) = reading_course(seq![], max_size, stream);
            &&& is_response_of(response, stream, max_size)
            &&& response.len() <= max_size
            &&& response + rest == stream
        }),
{
    assert(stream.take(0) =~= seq![]);
    assert(stream.skip(0) =~= stream);
    lemma_reading_course(max_size, stream, 0);
    let response = reading_course(seq![], max_size, stream).0;
    if response.len() > 0 {
        assert(wants_more(stream.take(response.len() - 1), max_size));
    }
}

proof fn lemma_course_of_response(
    response: Seq<u8>,
    purpose: Purpose,
    request: Seq<char>,
    stream: Seq<u8>,
    end: Seq<char>,
)
    requires
        wants_more(response, RESPONSE_LIMIT as nat),
    ensures
        ({
            let course = exchange_course(
                ExchangeView::Response(response),
                purpose,
                request,
                stream,
                end,
            );
            let (whole, rest) = reading_course(response, RESPONSE_LIMIT as nat, stream);
            &&& course.dialled.len() == 0
            &&& course.sent == Seq::<Seq<u8>>::empty()
            &&& course.result == Ok::<Seq<u8>, Seq<char>>(whole)
            &&& course.rest == rest
        }),
    decreases stream.len(),
{
    if stream.len() > 0 {
        let longer = response + stream.take(1);
        if wants_more(longer, RESPONSE_LIMIT as nat) {
            lemma_course_of_response(longer, purpose, request, stream.skip(1), end);
        } else {
            assert(reading_course(longer, RESPONSE_LIMIT as nat, stream.skip(1)) == (
                longer,
                stream.skip(1),
            ));
        }
    }
}

/// An exchange sends the request, then reads the response and not a byte more:
/// of whatever the proxy sends, the result is the shortest prefix that ends
/// with an empty line or reaches the limit, and what follows it stays unread.
pub proof fn law_exchange_reads_the_response_only(
    purpose: Purpose,
    request: Seq<char>,
    stream: Seq<u8>,
    end: Seq<char>,
)
    ensures
        ({
            let course = exchange_course(ExchangeView::Start, purpose, request, stream, end);
            &&& course.dialled.len() == 0
            &&& course.sent == seq![encode_utf8(request)]
            &&& course.result matches Ok(response)
            &&& is_response_of(response, stream, RESPONSE_LIMIT as nat)
            &&& response.len() <= RESPONSE_LIMIT
            &&& response + course.rest == stream
        }),
{
    law_reading_stops_at_the_response(RESPONSE_LIMIT as nat, stream);
    lemma_course_of_response(seq![], purpose, request, stream, end);
    let sent = exchange_course(ExchangeView::Request, purpose, request, stream, end);
    assert(sent == exchange_course(
        ExchangeView::Response(seq![]),
        purpose,
        request,
        stream,
        end,
    ));
}

/// Only the first line of a response counts: what follows its line feed changes
/// neither verdict nor the text of it.
pub proof fn law_only_the_first_line_counts(line: Seq<char>, one: Seq<char>, other: Seq<char>)
    requires
        !line.contains('\n'),
    ensures
        probe_verdict(line + seq!['\n'] + one) == probe_verdict(line + seq!['\n'] + other),
        tunnel_verdict(line + seq!['\n'] + one) == tunnel_verdict(line + seq!['\n'] + other),
{
    lemma_line_of(line, one);
    lemma_line_of(line, other);
    reveal_strlit("HTTP/1.1 200");
    reveal_strlit("HTTP/1.0 200");
    lemma_prefix_of_line("HTTP/1.1 200"@, line, one);
    lemma_prefix_of_line("HTTP/1.1 200"@, line, other);
    lemma_prefix_of_line("HTTP/1.0 200"@, line, one);
    lemma_prefix_of_line("HTTP/1.0 200"@, line, other);
}

proof fn lemma_line_of(line: Seq<char>, rest: Seq<char>)
    requires
        !line.contains('\n'),
    ensures
        text::line_of(line + seq!['\n'] + rest) == if line.len() > 0 && line.last() == '\r' {
            line.drop_last()
        } else {
            line
        },
{
    let response = line + seq!['\n'] + rest;
    assert forall|i: int| 0 <= i < line.len() implies response[i] != '\n' by {
        assert(response[i] == line[i]);
    }
    assert(response[line.len() as int] == '\n');
    text::lemma_position_is(response, '\n', line.len() as int);
    assert(text::before(response, '\n') =~= line);
}

proof fn lemma_prefix_of_line(prefix: Seq<char>, line: Seq<char>, rest: Seq<char>)
    requires
        !prefix.contains('\n'),
    ensures
        prefix.is_prefix_of(line + seq!['\n'] + rest) <==> prefix.is_prefix_of(line),
{
    let response = line + seq!['\n'] + rest;
    let n = prefix.len() as int;
    if prefix.is_prefix_of(response) {
        if n > line.len() {
            assert(response.subrange(0, n)[line.len() as int] == '\n');
        } else {
            assert(line.subrange(0, n) =~= response.subrange(0, n));
        }
    }
    if prefix.is_prefix_of(line) {
        assert(line.subrange(0, n) =~= response.subrange(0, n));
    }
}

/// Once the code in the first line is ended by a space, nothing after it counts
/// for what the probe decides.
pub proof fn law_nothing_after_the_code_counts(head: Seq<char>, rest: Seq<char>)
    requires
        ends_code(head),
    ensures
        status_code(text::line_of(head + rest)) == status_code(head),
        probe_verdict(head + rest) is Ok <==> probe_verdict(head) is Ok,
        status_code(head) is Some ==> probe_verdict(head + rest) == probe_verdict(head),
{
    let response = head + rest;
    let line = text::line_of(response);
    let after = text::after(head, ' ');
    let p = text::position(head, ' ');
    let q = text::position(after, ' ');
    let end = text::position(response, '\n');
    let m = p + q + 2;
    text::lemma_position(head, ' ');
    text::lemma_position(after, ' ');
    text::lemma_position(head, '\n');
    text::lemma_position(response, '\n');
    assert(text::line_of(head) =~= head);
    assert(end >= head.len()) by {
        if end < head.len() {
            assert(response[end] == head[end]);
        }
    }
    assert(after[q] == head[m - 1]);
    assert(response[m - 1] == ' ');
    assert(line.len() >= m);
    assert forall|i: int| 0 <= i < m implies line[i] == head[i] by {
        assert(response[i] == head[i]);
    }
    text::lemma_position_is(line, ' ', p);
    text::lemma_position(line, ' ');
    assert(text::before(line, ' ') =~= text::before(head, ' '));
    let later = text::after(line, ' ');
    assert forall|i: int| 0 <= i <= q implies later[i] == after[i] by {
        assert(later[i] == line[p + 1 + i]);
        assert(after[i] == head[p + 1 + i]);
    }
    text::lemma_position_is(later, ' ', q);
    assert(text::before(later, ' ') =~= text::before(after, ' '));
}

/// A first line with a character in its code that no number holds is refused,
/// whatever follows.
pub proof fn law_broken_code_is_refused(head: Seq<char>, broken: char, rest: Seq<char>)
    requires
        in_code(head),
        !text::is_digit(broken),
        broken != '+',
        broken != ' ',
        broken != '\r',
        broken != '\n',
    ensures
        probe_verdict(head + seq![broken] + rest) is Err,
{
    let response = head + seq![broken] + rest;
    let line = text::line_of(response);
    let after = text::after(head, ' ');
    let n = head.len() as int;
    let p = text::position(head, ' ');
    let end = text::position(response, '\n');
    text::lemma_position(head, ' ');
    text::lemma_position(after, ' ');
    text::lemma_position(response, '\n');
    assert(response[n] == broken);
    assert(end > n) by {
        if end < n {
            assert(response[end] == head[end]);
        }
    }
    assert(line.len() > n);
    assert forall|i: int| 0 <= i < n implies line[i] == head[i] by {
        assert(response[i] == head[i]);
    }
    assert(line[n] == broken);
    text::lemma_position_is(line, ' ', p);
    text::lemma_position(line, ' ');
    let later = text::after(line, ' ');
    let at = n - p - 1;
    text::lemma_position(later, ' ');
    assert(later[at] == broken);
    assert forall|i: int| 0 <= i <= at implies later[i] != ' ' by {
        if i < at {
            assert(later[i] == line[p + 1 + i]);
            assert(after[i] == head[p + 1 + i]);
        }
    }
    assert(text::position(later, ' ') > at) by {
        if text::position(later, ' ') <= at {
            assert(later[text::position(later, ' ')] != ' ');
        }
    }
    let field = text::before(later, ' ');
    let digits = text::unsigned_part(field);
    assert(field[at] == broken);
    let k = if field[0] == '+' {
        at - 1
    } else {
        at
    };
    assert(0 <= k < digits.len() && digits[k] == broken);
    assert(text::number16(field) is None);
}

/// Two responses that begin alike, up to the end of the code in their first
/// line, get the same decision from a probe, whatever bytes follow, valid or
/// not. Every judgement of a response gives the premises on its lossy text.
pub proof fn law_nothing_after_the_code_of_bytes_counts(
    head: Seq<u8>,
    one: Seq<u8>,
    other: Seq<u8>,
)
    requires
        valid_utf8(head),
        ends_code(decode_utf8(head)),
        head.is_prefix_of(one),
        head.is_prefix_of(other),
        encoding::lossy_text_of(one, encoding::utf8_lossy(one)),
        encoding::lossy_text_of(other, encoding::utf8_lossy(other)),
    ensures
        ({
            let first = probe_verdict(encoding::utf8_lossy(one));
            let second = probe_verdict(encoding::utf8_lossy(other));
            &&& first is Ok <==> second is Ok
            &&& status_code(decode_utf8(head)) is Some ==> first == second
        }),
{
    let first = probe_verdict(encoding::utf8_lossy(one));
    let second = probe_verdict(encoding::utf8_lossy(other));
    lemma_probe_verdict(one, encoding::utf8_lossy(one));
    lemma_probe_verdict(other, encoding::utf8_lossy(other));
    assert(code_decides(one, head, first));
    assert(code_decides(other, head, second));
}

/// Of two responses with the same first line in valid UTF-8 both verdicts are
/// the same, whatever bytes follow, valid or not. Every judgement of a response
/// gives the premises on its lossy text.
pub proof fn law_only_the_first_line_of_bytes_counts(line: Seq<u8>, one: Seq<u8>, other: Seq<u8>)
    requires
        encoding::begins_with_line(one, line),
        encoding::begins_with_line(other, line),
        encoding::lossy_text_of(one, encoding::utf8_lossy(one)),
        encoding::lossy_text_of(other, encoding::utf8_lossy(other)),
    ensures
        probe_verdict(encoding::utf8_lossy(one)) == probe_verdict(encoding::utf8_lossy(other)),
        tunnel_verdict(encoding::utf8_lossy(one)) == tunnel_verdict(encoding::utf8_lossy(other)),
{
    lemma_probe_verdict(one, encoding::utf8_lossy(one));
    lemma_probe_verdict(other, encoding::utf8_lossy(other));
    lemma_tunnel_verdict(one, encoding::utf8_lossy(one));
    lemma_tunnel_verdict(other, encoding::utf8_lossy(other));
}

/// A probe judges an HTTP/1 response by its status code and by nothing else:
/// it accepts the 2xx class and refuses every other code.
pub proof fn law_probe_judges_by_status(minor: Seq<char>, code: u16, rest: Seq<char>)
    requires
        !minor.contains(' '),
        !minor.contains('\n'),
        ends_status(rest),
    ensures
        ({
            let response = status_line(minor, code, rest);
            &&& status_code(text::line_of(response)) == Some(code)
            &&& probe_verdict(response) is Ok <==> 200 <= code < 300
        }),
{
    reveal_strlit("HTTP/1.");
    reveal_strlit(" ");
    let number = text::decimal(code as nat);
    text::lemma_decimal_digits(code as nat);
    text::law_decimal_round_trip(code);
    let version = "HTTP/1."@ + minor;
    let base = version + " "@ + number;
    let response = status_line(minor, code, rest);
    assert(response =~= base + rest);
    assert forall|i: int| 0 <= i < base.len() implies base[i] != '\n' by {
        if 7 <= i < version.len() {
            assert(base[i] == minor[i - 7]);
        } else if i > version.len() {
            assert(base[i] == number[i - version.len() - 1]);
        }
    }
    let line = text::line_of(response);
    text::lemma_position(response, '\n');
    let end = text::position(response, '\n');
    assert(end >= base.len()) by {
        if end < base.len() {
            assert(response[end] == base[end]);
        }
    }
    assert(base.last() == number.last());
    assert(response[base.len() - 1] == base.last());
    let tail = line.skip(base.len() as int);
    assert(line.len() >= base.len());
    if rest.len() > 0 {
        assert(response[base.len() as int] == rest[0]);
        if rest[0] == '\r' {
            assert(response[base.len() as int + 1] == rest[1]);
            assert(end == base.len() + 1);
        }
    }
    assert(tail.len() > 0 ==> tail[0] == ' ');
    assert(line =~= base + tail);
    assert forall|i: int| 0 <= i < version.len() implies line[i] != ' ' by {
        if i >= 7 {
            assert(line[i] == minor[i - 7]);
        }
    }
    assert(line[version.len() as int] == ' ');
    text::lemma_position_is(line, ' ', version.len() as int);
    text::lemma_position(line, ' ');
    assert(text::before(line, ' ') =~= version);
    let after = text::after(line, ' ');
    assert(after =~= number + tail);
    text::lemma_position_is(after, ' ', number.len() as int);
    assert(text::before(after, ' ') =~= number);
}

/// A tunnel is decided by the first bytes that the proxy sends: the response
/// begins with the bytes of an accepted status line exactly when the stream it
/// is read of does.
pub proof fn law_first_bytes_decide_the_tunnel(response: Seq<u8>, stream: Seq<u8>)
    requires
        is_response_of(response, stream, RESPONSE_LIMIT as nat),
    ensures
        ascii("HTTP/1.1 200"@).is_prefix_of(response) <==> ascii("HTTP/1.1 200"@).is_prefix_of(
            stream,
        ),
        ascii("HTTP/1.0 200"@).is_prefix_of(response) <==> ascii("HTTP/1.0 200"@).is_prefix_of(
            stream,
        ),
{
    reveal_strlit("HTTP/1.1 200");
    reveal_strlit("HTTP/1.0 200");
    lemma_status_survives(ascii("HTTP/1.1 200"@), response, stream);
    lemma_status_survives(ascii("HTTP/1.0 200"@), response, stream);
}

proof fn lemma_status_survives(status: Seq<u8>, response: Seq<u8>, stream: Seq<u8>)
    requires
        is_response_of(response, stream, RESPONSE_LIMIT as nat),
        status.len() <= RESPONSE_LIMIT,
        forall|i: int| 0 <= i < status.len() ==> status[i] != 10,
    ensures
        status.is_prefix_of(response) <==> status.is_prefix_of(stream),
{
    if status.is_prefix_of(response) {
        assert(stream.subrange(0, status.len() as int) =~= response.subrange(
            0,
            status.len() as int,
        ));
    }
    if status.is_prefix_of(stream) {
        if response.len() < status.len() {
            assert(response != stream);
            assert(is_complete(response));
            let last = response.len() - 1;
            assert(stream.subrange(0, response.len() as int)[last] == response[last]);
            assert(stream.subrange(0, status.len() as int)[last] == status[last]);
        }
        assert(response.subrange(0, status.len() as int) =~= stream.subrange(
            0,
            status.len() as int,
        ));
    }
}

/// At most one prefix of a stream is the response read of it.
pub proof fn law_response_is_unique(
    one: Seq<u8>,
    other: Seq<u8>,
    stream: Seq<u8>,
    max_size: nat,
)
    requires
        is_response_of(one, stream, max_size),
        is_response_of(other, stream, max_size),
    ensures
        one == other,
{
    assert(one =~= stream.take(one.len() as int));
    assert(other =~= stream.take(other.len() as int));
    if one.len() < other.len() {
        assert(wants_more(stream.take(one.len() as int), max_size));
    } else if other.len() < one.len() {
        assert(wants_more(stream.take(other.len() as int), max_size));
    }
}

// ---------------------------------------------------------------------------
// What a proxy finds in a request
// ---------------------------------------------------------------------------

proof fn lemma_last_position(text: Seq<char>, mark: char, at: int)
    requires
        0 <= at < text.len(),
        text[at] == mark,
        forall|i: int| at < i < text.len() ==> text[i] != mark,
    ensures
        reading::last_position(text, mark) == at,
    decreases text.len(),
{
    if at < text.len() - 1 {
        lemma_last_position(text.drop_last(), mark, at);
    }
}

/// The host and the port can be read back from a target: the port is the number
/// after the last colon, and the host is all that stands before it.
pub proof fn law_target_is_read_back(host: Seq<char>, port: u16)
    ensures
        reading::host_and_port(authority(host, port)) == Some((host, port)),
{
    reveal_strlit(":");
    let target = authority(host, port);
    let digits = text::decimal(port as nat);
    let n = host.len() as int;
    text::lemma_decimal_digits(port as nat);
    text::law_decimal_round_trip(port);
    assert(target[n] == ':');
    assert forall|i: int| n < i < target.len() implies target[i] != ':' by {
        assert(target[i] == digits[i - n - 1]);
    }
    lemma_last_position(target, ':', n);
    assert(target.skip(n + 1) =~= digits);
    assert(target.take(n) =~= host);
}

/// The token is there exactly when there is a username or a password, and who
/// decodes it finds the two with a colon between them.
pub proof fn law_token_is_read_back(username: Seq<char>, password: Seq<char>)
    ensures
        token_of(username, password) is Some <==> username.len() > 0 || password.len() > 0,
        token_of(username, password) matches Some(token) ==> {
            &&& reading::base64_data(token) == Some(encode_utf8(username + seq![':'] + password))
            &&& token_fits(username, password) <==> token.len() <= isize::MAX
        },
        username.len() == 0 && password.len() == 0 ==> token_fits(username, password),
{
    reveal_strlit(":");
    let pair = credentials(username, password);
    assert(pair =~= username + seq![':'] + password);
    encoding::law_base64_is_read_back(encode_utf8(pair));
    encoding::law_base64_shape(encode_utf8(pair));
    if username.len() == 0 && password.len() == 0 {
        assert(pair =~= seq![':']);
        is_ascii_chars_encode_utf8(pair);
    }
}

/// A request, letter by letter: it asks for the target, names it as its host,
/// carries what its purpose adds and then the token, if there are credentials.
pub proof fn law_request_letter_by_letter(
    purpose: Purpose,
    target: Seq<char>,
    username: Seq<char>,
    password: Seq<char>,
)
    ensures
        request_text(purpose, target, token_of(username, password)) == "CONNECT "@ + target
            + " HTTP/1.1\r\nHost: "@ + target + "\r\n"@ + (if purpose is Probe {
            "User-Agent: Mozilla/5.0\r\nProxy-Connection: Keep-Alive\r\n"@
        } else {
            seq![]
        }) + (if username.len() == 0 && password.len() == 0 {
            seq![]
        } else {
            "Proxy-Authorization: Basic "@ + encoding::base64_text(
                encode_utf8(username + seq![':'] + password),
            ) + "\r\n"@
        }) + "\r\n"@,
{
    reveal_strlit(":");
    reveal_strlit("\r\n");
    reveal_strlit(" HTTP/1.1");
    reveal_strlit("Host: ");
    reveal_strlit(" HTTP/1.1\r\nHost: ");
    reveal_strlit("User-Agent: Mozilla/5.0");
    reveal_strlit("Proxy-Connection: Keep-Alive");
    reveal_strlit("User-Agent: Mozilla/5.0\r\nProxy-Connection: Keep-Alive\r\n");
    let token = token_of(username, password);
    let pair = username + seq![':'] + password;
    assert(credentials(username, password) =~= pair);
    let empty = Seq::<Seq<char>>::empty();
    let first = "CONNECT "@ + target + " HTTP/1.1"@;
    let second = "Host: "@ + target;
    let one = empty.push(first);
    let two = one.push(second);
    lemma_joined_push(empty, first);
    lemma_joined_push(one, second);
    let head = joined(two);
    assert(head =~= "CONNECT "@ + target + " HTTP/1.1\r\nHost: "@ + target + "\r\n"@);
    let agent = "User-Agent: Mozilla/5.0"@;
    let keep = "Proxy-Connection: Keep-Alive"@;
    lemma_joined_push(two, agent);
    lemma_joined_push(two.push(agent), keep);
    let known = if purpose is Probe {
        two.push(agent).push(keep)
    } else {
        two
    };
    let added = if purpose is Probe {
        "User-Agent: Mozilla/5.0\r\nProxy-Connection: Keep-Alive\r\n"@
    } else {
        seq![]
    };
    assert(joined(known) =~= head + added);
    match token {
        Some(token) => {
            let line = "Proxy-Authorization: Basic "@ + token;
            lemma_joined_push(known, line);
            assert(request_lines(purpose, target, Some(token)) =~= known.push(line));
            assert(joined(known.push(line)) + "\r\n"@ =~= head + added + (line + "\r\n"@)
                + "\r\n"@);
        },
        None => {
            assert(request_lines(purpose, target, None) =~= known);
            assert(head + added + Seq::<char>::empty() =~= head + added);
        },
    }
}

proof fn lemma_line_end(line: Seq<char>, rest: Seq<char>)
    requires
        unbroken(line),
    ensures
        reading::line_end(line + seq!['\r', '\n'] + rest) == line.len(),
    decreases line.len(),
{
    let text = line + seq!['\r', '\n'] + rest;
    if line.len() == 0 {
        assert(text[0] == '\r' && text[1] == '\n');
    } else {
        assert(text[0] == line[0]);
        assert(text.drop_first() =~= line.drop_first() + seq!['\r', '\n'] + rest);
        lemma_line_end(line.drop_first(), rest);
    }
}

proof fn lemma_section_lines(lines: Seq<Seq<char>>)
    requires
        forall|k: int|
            0 <= k < lines.len() ==> (#[trigger] lines[k]).len() > 0 && unbroken(lines[k]),
    ensures
        reading::section_lines(joined(lines) + seq!['\r', '\n']) == Some(lines),
    decreases lines.len(),
{
    if lines.len() == 0 {
        let text = joined(lines) + seq!['\r', '\n'];
        lemma_line_end(seq![], seq![]);
        assert(text =~= Seq::<char>::empty() + seq!['\r', '\n'] + Seq::<char>::empty());
        assert(lines =~= seq![]);
    } else {
        let later = lines.drop_first();
        let text = joined(lines) + seq!['\r', '\n'];
        lemma_joined_first(lines);
        let rest = joined(later) + seq!['\r', '\n'];
        assert(text =~= lines[0] + seq!['\r', '\n'] + rest);
        lemma_line_end(lines[0], rest);
        assert forall|k: int| 0 <= k < later.len() implies (#[trigger] later[k]).len() > 0
            && unbroken(later[k]) by {
            assert(later[k] == lines[k + 1]);
        }
        lemma_section_lines(later);
        let n = lines[0].len() as int;
        assert(text.take(n) =~= lines[0]);
        assert(text.skip(n + 2) =~= rest);
        assert(seq![lines[0]] + later =~= lines);
    }
}

proof fn lemma_joined_first(lines: Seq<Seq<char>>)
    requires
        lines.len() > 0,
    ensures
        joined(lines) == lines[0] + seq!['\r', '\n'] + joined(lines.drop_first()),
    decreases lines.len(),
{
    reveal_strlit("\r\n");
    if lines.len() == 1 {
        assert(lines.drop_last() =~= seq![]);
        assert(lines.drop_first() =~= seq![]);
        assert(joined(lines) =~= lines[0] + seq!['\r', '\n'] + joined(lines.drop_first()));
    } else {
        let front = lines.drop_last();
        lemma_joined_first(front);
        assert(front.drop_first() =~= lines.drop_first().drop_last());
        assert(joined(lines) =~= lines[0] + seq!['\r', '\n'] + joined(lines.drop_first()));
    }
}

proof fn lemma_header_here(lines: Seq<Seq<char>>, name: Seq<char>, value: Seq<char>)
    requires
        lines.len() > 0,
        lines[0] == name + seq![':', ' '] + value,
    ensures
        reading::header(lines, name) == Some(value),
{
    let start = name + seq![':', ' '];
    assert(lines[0].subrange(0, start.len() as int) =~= start);
    assert(lines[0].skip(start.len() as int) =~= value);
}

proof fn lemma_header_later(lines: Seq<Seq<char>>, name: Seq<char>, i: int)
    requires
        lines.len() > 0,
        0 <= i < name.len(),
        i < lines[0].len(),
        lines[0][i] != name[i],
    ensures
        reading::header(lines, name) == reading::header(lines.drop_first(), name),
{
    let start = name + seq![':', ' '];
    if start.is_prefix_of(lines[0]) {
        assert(lines[0].subrange(0, start.len() as int)[i] == start[i]);
    }
}

/// Who reads a request line by line finds the target in the first line and in
/// the host, the token in the authorization exactly when there is one, and for
/// a probe the two headers of a browser; and nothing else.
pub proof fn law_request_is_read_back(
    purpose: Purpose,
    target: Seq<char>,
    token: Option<Seq<char>>,
)
    requires
        unbroken(target),
        token matches Some(token) ==> unbroken(token),
    ensures
        ({
            let lines = reading::section_lines(request_text(purpose, target, token))->0;
            &&& reading::section_lines(request_text(purpose, target, token)) is Some
            &&& lines[0] == "CONNECT "@ + target + " HTTP/1.1"@
            &&& reading::header(lines, "Host"@) == Some(target)
            &&& reading::header(lines, "Proxy-Authorization"@) == match token {
                Some(token) => Some("Basic "@ + token),
                None => None,
            }
            &&& reading::header(lines, "User-Agent"@) == if purpose is Probe {
                Some("Mozilla/5.0"@)
            } else {
                None
            }
            &&& reading::header(lines, "Proxy-Connection"@) == if purpose is Probe {
                Some("Keep-Alive"@)
            } else {
                None
            }
            &&& lines.len() == 2 + (if purpose is Probe {
                2int
            } else {
                0
            }) + (if token is Some {
                1int
            } else {
                0
            })
        }),
{
    reveal_strlit("\r\n");
    let lines = request_lines(purpose, target, token);
    assert(request_text(purpose, target, token) =~= joined(lines) + seq!['\r', '\n']);
    lemma_request_lines_are_lines(purpose, target, token);
    lemma_section_lines(lines);
    lemma_host_and_probe_headers(purpose, target, token);
    lemma_authorization_header(purpose, target, token);
}

proof fn lemma_request_lines_are_lines(
    purpose: Purpose,
    target: Seq<char>,
    token: Option<Seq<char>>,
)
    requires
        unbroken(target),
        token matches Some(token) ==> unbroken(token),
    ensures
        ({
            let lines = request_lines(purpose, target, token);
            forall|k: int|
                0 <= k < lines.len() ==> (#[trigger] lines[k]).len() > 0 && unbroken(lines[k])
        }),
{
    reveal_strlit("CONNECT ");
    reveal_strlit(" HTTP/1.1");
    reveal_strlit("Host: ");
    reveal_strlit("User-Agent: Mozilla/5.0");
    reveal_strlit("Proxy-Connection: Keep-Alive");
    reveal_strlit("Proxy-Authorization: Basic ");
}

/// The header lines of a request after its first two: those of its purpose, and
/// the token's.
proof fn lemma_request_tails(purpose: Purpose, target: Seq<char>, token: Option<Seq<char>>)
    ensures
        ({
            let lines = request_lines(purpose, target, token);
            let third = lines.drop_first().drop_first();
            &&& lines[0] == "CONNECT "@ + target + " HTTP/1.1"@
            &&& lines.drop_first()[0] == "Host: "@ + target
            &&& purpose is Tunnel ==> third == token_lines(token)
            &&& purpose is Probe ==> {
                &&& third[0] == "User-Agent: Mozilla/5.0"@
                &&& third.drop_first()[0] == "Proxy-Connection: Keep-Alive"@
                &&& third.drop_first().drop_first() == token_lines(token)
            }
        }),
{
    let lines = request_lines(purpose, target, token);
    let third = lines.drop_first().drop_first();
    match purpose {
        Purpose::Tunnel => assert(third =~= token_lines(token)),
        Purpose::Probe => assert(third.drop_first().drop_first() =~= token_lines(token)),
    }
}

#[verifier::spinoff_prover]
proof fn lemma_host_and_probe_headers(
    purpose: Purpose,
    target: Seq<char>,
    token: Option<Seq<char>>,
)
    ensures
        ({
            let lines = request_lines(purpose, target, token);
            &&& reading::header(lines, "Host"@) == Some(target)
            &&& reading::header(lines, "User-Agent"@) == if purpose is Probe {
                Some("Mozilla/5.0"@)
            } else {
                None
            }
            &&& reading::header(lines, "Proxy-Connection"@) == if purpose is Probe {
                Some("Keep-Alive"@)
            } else {
                None
            }
        }),
{
    reveal_strlit("CONNECT ");
    reveal_strlit("Host");
    reveal_strlit("Host: ");
    reveal_strlit("User-Agent");
    reveal_strlit("Mozilla/5.0");
    reveal_strlit("User-Agent: Mozilla/5.0");
    reveal_strlit("Proxy-Connection");
    reveal_strlit("Keep-Alive");
    reveal_strlit("Proxy-Connection: Keep-Alive");
    reveal_strlit("Proxy-Authorization: Basic ");
    let lines = request_lines(purpose, target, token);
    let second = lines.drop_first();
    let third = second.drop_first();
    lemma_request_tails(purpose, target, token);
    lemma_header_later(lines, "Host"@, 0);
    lemma_header_later(lines, "User-Agent"@, 0);
    lemma_header_later(lines, "Proxy-Connection"@, 0);
    assert(second[0] =~= "Host"@ + seq![':', ' '] + target);
    lemma_header_here(second, "Host"@, target);
    lemma_header_later(second, "User-Agent"@, 0);
    lemma_header_later(second, "Proxy-Connection"@, 0);
    match purpose {
        Purpose::Probe => {
            let fourth = third.drop_first();
            assert(third[0] =~= "User-Agent"@ + seq![':', ' '] + "Mozilla/5.0"@);
            assert(fourth[0] =~= "Proxy-Connection"@ + seq![':', ' '] + "Keep-Alive"@);
            lemma_header_here(third, "User-Agent"@, "Mozilla/5.0"@);
            lemma_header_later(third, "Proxy-Connection"@, 0);
            lemma_header_here(fourth, "Proxy-Connection"@, "Keep-Alive"@);
        },
        Purpose::Tunnel => {
            if token is Some {
                lemma_header_later(third, "User-Agent"@, 0);
                lemma_header_later(third, "Proxy-Connection"@, 6);
                assert(third.drop_first().len() == 0);
            }
        },
    }
}

#[verifier::spinoff_prover]
proof fn lemma_authorization_header(
    purpose: Purpose,
    target: Seq<char>,
    token: Option<Seq<char>>,
)
    ensures
        reading::header(request_lines(purpose, target, token), "Proxy-Authorization"@)
            == match token {
            Some(token) => Some("Basic "@ + token),
            None => None,
        },
{
    reveal_strlit("CONNECT ");
    reveal_strlit("Host: ");
    reveal_strlit("Basic ");
    reveal_strlit("User-Agent: Mozilla/5.0");
    reveal_strlit("Proxy-Connection: Keep-Alive");
    reveal_strlit("Proxy-Authorization");
    reveal_strlit("Proxy-Authorization: Basic ");
    let lines = request_lines(purpose, target, token);
    let second = lines.drop_first();
    let third = second.drop_first();
    let last = token_lines(token);
    lemma_request_tails(purpose, target, token);
    lemma_header_later(lines, "Proxy-Authorization"@, 0);
    lemma_header_later(second, "Proxy-Authorization"@, 0);
    if purpose is Probe {
        lemma_header_later(third, "Proxy-Authorization"@, 0);
        lemma_header_later(third.drop_first(), "Proxy-Authorization"@, 6);
    }
    if let Some(token) = token {
        assert(last[0] =~= "Proxy-Authorization"@ + seq![':', ' '] + ("Basic "@ + token));
        lemma_header_here(last, "Proxy-Authorization"@, "Basic "@ + token);
    }
}

/// Whether who reads `text` finds a request to connect to `target`, and with it
/// the credentials given: none if both are empty.
pub open spec fn reads_as_request(
    text: Seq<char>,
    target: Seq<char>,
    username: Seq<char>,
    password: Seq<char>,
) -> bool {
    &&& reading::section_lines(text) matches Some(lines)
    &&& lines.len() > 0
    &&& lines[0] == "CONNECT "@ + target + " HTTP/1.1"@
    &&& reading::header(lines, "Host"@) == Some(target)
    &&& match reading::header(lines, "Proxy-Authorization"@) {
        Some(value) => {
            &&& username.len() > 0 || password.len() > 0
            &&& "Basic "@.is_prefix_of(value)
            &&& reading::base64_data(value.skip(6)) == Some(
                encode_utf8(username + seq![':'] + password),
            )
        },
        None => username.len() == 0 && password.len() == 0,
    }
}

pub(crate) proof fn lemma_reads_as_request(
    purpose: Purpose,
    target: Seq<char>,
    username: Seq<char>,
    password: Seq<char>,
)
    requires
        unbroken(target),
    ensures
        reads_as_request(
            request_text(purpose, target, token_of(username, password)),
            target,
            username,
            password,
        ),
{
    let token = token_of(username, password);
    law_token_is_read_back(username, password);
    match token {
        Some(token) => {
            reveal_strlit("Basic ");
            encoding::law_base64_shape(encode_utf8(credentials(username, password)));
            assert forall|i: int| 0 <= i < token.len() implies #[trigger] token[i] != '\r'
                && token[i] != '\n' by {
                assert(encoding::is_base64_char(token[i]));
            }
            let value = "Basic "@ + token;
            assert(value.subrange(0, 6) =~= "Basic "@);
            assert(value.skip(6) =~= token);
        },
        None => {},
    }
    law_request_is_read_back(purpose, target, token);
}

pub(crate) proof fn lemma_unbroken_authority(host: Seq<char>, port: u16)
    requires
        unbroken(host),
    ensures
        unbroken(authority(host, port)),
{
    reveal_strlit(":");
    let target = authority(host, port);
    let digits = text::decimal(port as nat);
    text::lemma_decimal_digits(port as nat);
    assert forall|i: int| 0 <= i < target.len() implies #[trigger] target[i] != '\r' && target[i]
        != '\n' by {
        if i < host.len() {
            assert(target[i] == host[i]);
        } else if i > host.len() {
            assert(target[i] == digits[i - host.len() - 1]);
        }
    }
}

/// A tunnel opens with a request for its remote host and port and with the
/// credentials of its proxy, letter by letter; and a proxy that reads it finds
/// these in it.
pub proof fn law_tunnel_asks_for_its_remote(proxy: ProxyView, remote: RemoteView)
    ensures
        ({
            let (next, action) = http_connect_step(
                ExchangeView::Start,
                proxy,
                remote,
                EventView::Started,
            );
            let target = remote.host + seq![':'] + text::decimal(remote.port as nat);
            &&& next is Request
            &&& action == ActionView::<()>::Send(
                encode_utf8(
                    "CONNECT "@ + target + " HTTP/1.1\r\nHost: "@ + target + "\r\n"@ + (
                    if proxy.username.len() == 0 && proxy.password.len() == 0 {
                        seq![]
                    } else {
                        "Proxy-Authorization: Basic "@ + encoding::base64_text(
                            encode_utf8(proxy.username + seq![':'] + proxy.password),
                        ) + "\r\n"@
                    }) + "\r\n"@,
                ),
            )
            &&& reading::host_and_port(target) == Some((remote.host, remote.port))
            &&& unbroken(remote.host) ==> reads_as_request(
                decode_utf8(action->Send_0),
                target,
                proxy.username,
                proxy.password,
            )
        }),
{
    reveal_strlit(":");
    let target = authority(remote.host, remote.port);
    assert(target =~= remote.host + seq![':'] + text::decimal(remote.port as nat));
    law_target_is_read_back(remote.host, remote.port);
    law_request_letter_by_letter(Purpose::Tunnel, target, proxy.username, proxy.password);
    let request = tunnel_request(proxy, remote);
    encode_utf8_decode_utf8(request);
    if unbroken(remote.host) {
        lemma_unbroken_authority(remote.host, remote.port);
        lemma_reads_as_request(Purpose::Tunnel, target, proxy.username, proxy.password);
    }
    let plain = "CONNECT "@ + target + " HTTP/1.1\r\nHost: "@ + target + "\r\n"@;
    assert(plain + Seq::<char>::empty() =~= plain);
}

/// Tunnels with different remotes, or with different credentials, send
/// different requests.
pub proof fn law_requests_tell_tunnels_apart(
    proxy: ProxyView,
    remote: RemoteView,
    other_proxy: ProxyView,
    other_remote: RemoteView,
)
    requires
        unbroken(remote.host),
        unbroken(other_remote.host),
        http_connect_step(ExchangeView::Start, proxy, remote, EventView::Started)
            == http_connect_step(
            ExchangeView::Start,
            other_proxy,
            other_remote,
            EventView::Started,
        ),
    ensures
        remote.host == other_remote.host,
        remote.port == other_remote.port,
        proxy.username + seq![':'] + proxy.password == other_proxy.username + seq![':']
            + other_proxy.password,
{
    law_tunnel_asks_for_its_remote(proxy, remote);
    law_tunnel_asks_for_its_remote(other_proxy, other_remote);
    let one = remote.host + seq![':'] + text::decimal(remote.port as nat);
    let two = other_remote.host + seq![':'] + text::decimal(other_remote.port as nat);
    let line = "CONNECT "@ + one + " HTTP/1.1"@;
    let other_line = "CONNECT "@ + two + " HTTP/1.1"@;
    reveal_strlit("CONNECT ");
    reveal_strlit(" HTTP/1.1");
    assert(line == other_line);
    assert(one =~= line.subrange(8, line.len() - 9));
    assert(two =~= other_line.subrange(8, other_line.len() - 9));
    let pair = proxy.username + seq![':'] + proxy.password;
    let other_pair = other_proxy.username + seq![':'] + other_proxy.password;
    encode_utf8_decode_utf8(pair);
    encode_utf8_decode_utf8(other_pair);
    if proxy.username.len() == 0 && proxy.password.len() == 0 {
        assert(pair =~= other_pair);
    }
}

// ---------------------------------------------------------------------------
// How far a response reaches, and what is said of it
// ---------------------------------------------------------------------------

proof fn lemma_complete(stream: Seq<u8>, n: int)
    requires
        4 <= n <= stream.len(),
    ensures
        is_complete(stream.take(n)) <==> stream.subrange(n - 4, n) == seq![
            13u8,
            10u8,
            13u8,
            10u8,
        ],
{
    let piece = stream.subrange(n - 4, n);
    assert(piece[0] == stream[n - 4] && piece[1] == stream[n - 3]);
    assert(piece[2] == stream[n - 2] && piece[3] == stream[n - 1]);
    if is_complete(stream.take(n)) {
        assert(piece =~= seq![13u8, 10u8, 13u8, 10u8]);
    }
}

/// A response ends at the first empty line, at the limit or at the end of the
/// stream, whichever comes first.
#[verifier::spinoff_prover]
pub proof fn law_response_ends_at_the_empty_line(max_size: nat, stream: Seq<u8>)
    ensures
        ({
            let (response, rest) = reading_course(seq![], max_size, stream);
            let n = response.len() as int;
            &&& response + rest == stream
            &&& n <= max_size
            &&& forall|k: int|
                0 <= k && k + 4 < n ==> #[trigger] stream.subrange(k, k + 4) != seq![
                    13u8,
                    10u8,
                    13u8,
                    10u8,
                ]
            &&& {
                ||| n >= 4 && stream.subrange(n - 4, n) == seq![13u8, 10u8, 13u8, 10u8]
                ||| n == max_size
                ||| rest.len() == 0
            }
        }),
{
    law_reading_stops_at_the_response(max_size, stream);
    let (response, rest) = reading_course(seq![], max_size, stream);
    let n = response.len() as int;
    assert forall|k: int| 0 <= k && k + 4 < n implies #[trigger] stream.subrange(k, k + 4) != seq![
        13u8,
        10u8,
        13u8,
        10u8,
    ] by {
        assert(wants_more(stream.take(k + 4), max_size));
        lemma_complete(stream, k + 4);
    }
    assert(response =~= stream.take(n));
    if response == stream {
        assert(rest.len() == 0);
    } else if is_complete(response) {
        lemma_complete(stream, n);
    }
}

/// An exchange reads 8192 bytes at most, and stops before only at an empty line
/// or when the proxy closes.
pub proof fn law_exchange_ends_at_the_empty_line(
    purpose: Purpose,
    request: Seq<char>,
    stream: Seq<u8>,
    end: Seq<char>,
)
    ensures
        ({
            let course = exchange_course(ExchangeView::Start, purpose, request, stream, end);
            let n = stream.len() - course.rest.len();
            &&& course.result == Ok::<Seq<u8>, Seq<char>>(stream.take(n))
            &&& course.rest == stream.skip(n)
            &&& 0 <= n <= 8192
            &&& forall|k: int|
                0 <= k && k + 4 < n ==> #[trigger] stream.subrange(k, k + 4) != seq![
                    13u8,
                    10u8,
                    13u8,
                    10u8,
                ]
            &&& {
                ||| n >= 4 && stream.subrange(n - 4, n) == seq![13u8, 10u8, 13u8, 10u8]
                ||| n == 8192
                ||| n == stream.len()
            }
        }),
{
    law_exchange_reads_the_response_only(purpose, request, stream, end);
    law_response_ends_at_the_empty_line(8192, stream);
    let course = exchange_course(ExchangeView::Start, purpose, request, stream, end);
    let response = course.result->Ok_0;
    let (read, rest) = reading_course(seq![], 8192, stream);
    law_reading_stops_at_the_response(8192, stream);
    law_response_is_unique(response, read, stream, 8192);
    let n = stream.len() - course.rest.len();
    assert(stream.take(n) =~= response);
    assert(stream.skip(n) =~= course.rest);
    assert(rest =~= course.rest);
}

/// A failure ends an exchange. A tunnel says whether the request or the
/// response failed and then why, a probe only why. An exchange that is told
/// that the stream is over gives what it has.
pub proof fn law_exchange_failures_are_reported(
    purpose: Purpose,
    request: Seq<char>,
    response: Seq<u8>,
    reason: Seq<char>,
)
    ensures
        exchange_step(ExchangeView::Request, purpose, request, EventView::Failed(reason)) == (
            ExchangeView::Closed,
            ActionView::<Seq<u8>>::Finish(
                Err(
                    if purpose is Tunnel {
                        "Failed to send CONNECT request: "@ + reason
                    } else {
                        reason
                    },
                ),
            ),
        ),
        exchange_step(
            ExchangeView::Response(response),
            purpose,
            request,
            EventView::Failed(reason),
        ) == (
            ExchangeView::Closed,
            ActionView::<Seq<u8>>::Finish(
                Err(
                    if purpose is Tunnel {
                        "Failed to read CONNECT response: "@ + reason
                    } else {
                        reason
                    },
                ),
            ),
        ),
        exchange_step(
            ExchangeView::Response(response),
            purpose,
            request,
            EventView::Received(seq![]),
        ) == (ExchangeView::Closed, ActionView::<Seq<u8>>::Finish(Ok(response))),
{
}

/// A tunnel accepts a response that begins with status 200 in HTTP/1.1 or
/// HTTP/1.0 and refuses any other, giving its first line; it has words of its
/// own for a response that is empty.
pub proof fn law_tunnel_verdict(response: Seq<char>, line: Seq<char>)
    requires
        text::line_of(response) == line,
    ensures
        tunnel_verdict(response) == if response.len() >= 12 && (response.take(12)
            == "HTTP/1.1 200"@ || response.take(12) == "HTTP/1.0 200"@) {
            Ok::<(), Seq<char>>(())
        } else if response.len() == 0 {
            Err("HTTP proxy CONNECT failed: invalid proxy response"@)
        } else {
            Err("HTTP proxy CONNECT failed: "@ + line)
        },
{
    reveal_strlit("HTTP/1.1 200");
    reveal_strlit("HTTP/1.0 200");
    reveal_strlit("HTTP proxy CONNECT failed: ");
    reveal_strlit("invalid proxy response");
    reveal_strlit("HTTP proxy CONNECT failed: invalid proxy response");
    assert("HTTP proxy CONNECT failed: "@ + "invalid proxy response"@
        =~= "HTTP proxy CONNECT failed: invalid proxy response"@);
    if response.len() >= 12 {
        assert(response.take(12) =~= response.subrange(0, 12));
    }
}

/// A probe takes the first line apart at its spaces. The first field must begin
/// with `HTTP/1.` and the second must be a number: from 200 to 299 it is
/// success, otherwise it is given as the reason. A line without these is given
/// as the reason itself.
pub proof fn law_probe_verdict(
    response: Seq<char>,
    version: Seq<char>,
    field: Seq<char>,
    more: Seq<char>,
)
    requires
        !version.contains(' '),
        !field.contains(' '),
        more.len() > 0 ==> more[0] == ' ',
    ensures
        text::line_of(response) == version + seq![' '] + field + more ==> probe_verdict(response)
            == if version.len() >= 7 && version.take(7) == "HTTP/1."@ && text::number16(
            field,
        ) is Some {
            let code = text::number16(field)->0;
            if 200 <= code <= 299 {
                Ok::<Seq<char>, Seq<char>>(
                    "HTTP CONNECT proxy connection successful ("@ + text::decimal(code as nat)
                        + ")"@,
                )
            } else {
                Err("HTTP proxy CONNECT failed: HTTP "@ + text::decimal(code as nat))
            }
        } else {
            Err("HTTP proxy CONNECT failed: "@ + text::line_of(response))
        },
        text::line_of(response) == version ==> probe_verdict(response) == Err::<
            Seq<char>,
            Seq<char>,
        >("HTTP proxy CONNECT failed: "@ + version),
{
    reveal_strlit("HTTP/1.");
    reveal_strlit("HTTP ");
    reveal_strlit("HTTP proxy CONNECT failed: ");
    reveal_strlit("HTTP proxy CONNECT failed: HTTP ");
    assert("HTTP proxy CONNECT failed: "@ + "HTTP "@ =~= "HTTP proxy CONNECT failed: HTTP "@);
    let line = text::line_of(response);
    if line == version + seq![' '] + field + more {
        let n = version.len() as int;
        assert forall|i: int| 0 <= i < n implies line[i] != ' ' by {
            assert(line[i] == version[i]);
        }
        assert(line[n] == ' ');
        text::lemma_position_is(line, ' ', n);
        text::lemma_position(line, ' ');
        assert(text::before(line, ' ') =~= version);
        let after = text::after(line, ' ');
        assert(after =~= field + more);
        assert forall|i: int| 0 <= i < field.len() implies after[i] != ' ' by {
            assert(after[i] == field[i]);
        }
        if more.len() > 0 {
            assert(after[field.len() as int] == more[0]);
        }
        text::lemma_position_is(after, ' ', field.len() as int);
        assert(text::before(after, ' ') =~= field);
        if version.len() >= 7 {
            assert(version.take(7) =~= version.subrange(0, 7));
        }
        if let Some(code) = text::number16(field) {
            let digits = text::decimal(code as nat);
            assert("HTTP proxy CONNECT failed: "@ + ("HTTP "@ + digits)
                =~= "HTTP proxy CONNECT failed: HTTP "@ + digits);
        }
    }
}

/// A tunnel does what the exchange does, and in the end what its verdict on the
/// response says.
pub proof fn law_tunnel_judges_its_response(
    exchange: ExchangeView,
    proxy: ProxyView,
    remote: RemoteView,
    event: EventView,
)
    ensures
        ({
            let (next, action) = http_connect_step(exchange, proxy, remote, event);
            let (read, asked) = exchange_step(
                exchange,
                Purpose::Tunnel,
                tunnel_request(proxy, remote),
                event,
            );
            &&& next == read
            &&& asked matches ActionView::Finish(Ok(response)) ==> action == ActionView::Finish(
                tunnel_verdict(encoding::utf8_lossy(response)),
            )
            &&& asked matches ActionView::Finish(Err(reason)) ==> action == ActionView::<
                (),
            >::Finish(Err(reason))
            &&& asked matches ActionView::Send(message) ==> action == ActionView::<()>::Send(
                message,
            )
            &&& asked is ReceiveByte ==> action is ReceiveByte
        }),
{
}

} // verus!
