//! Explicit proxy frontends: the deterministic response bytes of the HTTP
//! proxy and SOCKS5 frontends, SOCKS5 method negotiation, the mapping from
//! policy decisions to responses, and the framing of request heads.

use crate::model::AuditDecision;
use crate::packet::copy_range;
use crate::policy::{EventKind, PolicyEvent};
use crate::text::{decimal, push_decimal, push_text};
use vstd::prelude::*;
use vstd::string::StringSliceAdditionalSpecFns;
use vstd::string::StrSliceExecFns;
use vstd::utf8::{decode_utf8, encode_utf8, valid_utf8};

verus! {

// ---------------------------------------------------------------------------
// HTTP proxy responses.

/// Client-visible HTTP proxy response for a preflight decision.
#[derive(Clone, Copy, Debug, PartialEq, Eq, Structural)]
pub enum HttpProxyResponse {
    ConnectionEstablished,
    Forbidden,
    BadGateway,
}

/// The status line and headers sent for `response`.
pub open spec fn http_response_text(response: HttpProxyResponse) -> &'static str {
    match response {
        HttpProxyResponse::ConnectionEstablished => "HTTP/1.1 200 Connection Established\r\n\r\n",
        HttpProxyResponse::Forbidden => "HTTP/1.1 403 Forbidden\r\nContent-Length: 0\r\n\r\n",
        HttpProxyResponse::BadGateway => "HTTP/1.1 502 Bad Gateway\r\nContent-Length: 0\r\n\r\n",
    }
}

impl HttpProxyResponse {
    /// The bytes written to the client: the UTF-8 encoding of the response text.
    pub fn as_bytes(self) -> (bytes: Vec<u8>)
        ensures
            bytes@ == http_response_text(self).spec_bytes(),
    {
        match self {
            HttpProxyResponse::ConnectionEstablished => {
                "HTTP/1.1 200 Connection Established\r\n\r\n".as_bytes_vec()
            },
            HttpProxyResponse::Forbidden => {
                "HTTP/1.1 403 Forbidden\r\nContent-Length: 0\r\n\r\n".as_bytes_vec()
            },
            HttpProxyResponse::BadGateway => {
                "HTTP/1.1 502 Bad Gateway\r\nContent-Length: 0\r\n\r\n".as_bytes_vec()
            },
        }
    }
}

/// Next frontend action after HTTP proxy preflight.
#[derive(Clone, Copy, Debug, PartialEq, Eq, Structural)]
pub enum HttpProxyAction {
    Forward,
    Respond(HttpProxyResponse),
}

/// HTTP proxy preflight: an allowed request is forwarded, anything else
/// (denied, malformed, fail-closed) is answered `403 Forbidden`.
pub fn http_proxy_action(decision: AuditDecision) -> (action: HttpProxyAction)
    ensures
        action == (if decision == AuditDecision::Allowed {
            HttpProxyAction::Forward
        } else {
            HttpProxyAction::Respond(HttpProxyResponse::Forbidden)
        }),
{
    match decision {
        AuditDecision::Allowed => HttpProxyAction::Forward,
        _ => HttpProxyAction::Respond(HttpProxyResponse::Forbidden),
    }
}

/// HTTP CONNECT preflight: an allowed tunnel is answered `200 Connection
/// Established`, anything else `403 Forbidden`.
pub fn http_connect_response(decision: AuditDecision) -> (response: HttpProxyResponse)
    ensures
        response == (if decision == AuditDecision::Allowed {
            HttpProxyResponse::ConnectionEstablished
        } else {
            HttpProxyResponse::Forbidden
        }),
{
    match decision {
        AuditDecision::Allowed => HttpProxyResponse::ConnectionEstablished,
        _ => HttpProxyResponse::Forbidden,
    }
}

/// What a proxy frontend does with an evaluated request before egress.
#[derive(Clone, Copy, Debug, PartialEq, Eq, Structural)]
pub enum ProxyEgressStep {
    /// Answer the client with this response; egress is not contacted.
    Answer(HttpProxyResponse),
    /// Connect to the target (and, for a plain HTTP request, write the
    /// rewritten request to it).
    Connect,
}

/// Whether an evaluated proxy request goes to egress: a request that policy
/// did not allow (denied, malformed, fail-closed) is answered `403
/// Forbidden` and never reaches egress; an allowed request without a usable
/// target, or without a rewritten request, is answered `502 Bad Gateway`.
pub fn proxy_egress_step(decision: AuditDecision, target_ready: bool) -> (step: ProxyEgressStep)
    ensures
        step == (if decision != AuditDecision::Allowed {
            ProxyEgressStep::Answer(HttpProxyResponse::Forbidden)
        } else if !target_ready {
            ProxyEgressStep::Answer(HttpProxyResponse::BadGateway)
        } else {
            ProxyEgressStep::Connect
        }),
        step is Connect ==> decision == AuditDecision::Allowed,
{
    match decision {
        AuditDecision::Allowed => if target_ready {
            ProxyEgressStep::Connect
        } else {
            ProxyEgressStep::Answer(HttpProxyResponse::BadGateway)
        },
        _ => ProxyEgressStep::Answer(HttpProxyResponse::Forbidden),
    }
}

/// The answer once egress reported: a failed connect (or a failed write of
/// the forwarded request) is answered `502 Bad Gateway`; an opened CONNECT
/// tunnel is answered `200 Connection Established`; a forwarded HTTP request
/// is answered by the origin, so the proxy sends no answer of its own.
pub fn proxy_connect_answer(connected: bool, tunnel: bool) -> (answer: Option<HttpProxyResponse>)
    ensures
        answer == (if !connected {
            Some(HttpProxyResponse::BadGateway)
        } else if tunnel {
            Some(HttpProxyResponse::ConnectionEstablished)
        } else {
            None
        }),
{
    if !connected {
        Some(HttpProxyResponse::BadGateway)
    } else if tunnel {
        Some(HttpProxyResponse::ConnectionEstablished)
    } else {
        None
    }
}

/// Runtime outcome for one HTTP proxy connection.
#[derive(Clone, Copy, Debug, PartialEq, Eq, Structural)]
pub enum HttpProxyServeOutcome {
    ForwardedHttp { response_bytes: u64 },
    Responded(HttpProxyResponse),
}

/// HTTP proxy one-connection runtime errors.
#[derive(Clone, Debug, PartialEq, Eq)]
pub enum HttpProxyServeError {
    RequestHeadTooLarge { limit: usize },
    Io(String),
}

impl HttpProxyServeError {
    /// A one-line description of the error.
    pub fn describe(&self) -> (text: String)
        ensures
            text@ == (match self {
                HttpProxyServeError::RequestHeadTooLarge { limit } => "http-proxy-request-head-too-large: limit="@
                    + decimal(*limit as nat),
                HttpProxyServeError::Io(detail) => "http-proxy-io-error: "@ + detail@,
            }),
    {
        match self {
            HttpProxyServeError::RequestHeadTooLarge { limit } => {
                let mut text = String::new();
                push_text(&mut text, "http-proxy-request-head-too-large: limit=");
                push_decimal(&mut text, *limit as u64);
                text
            },
            HttpProxyServeError::Io(detail) => {
                let mut text = String::new();
                push_text(&mut text, "http-proxy-io-error: ");
                push_text(&mut text, detail.as_str());
                text
            },
        }
    }
}

// ---------------------------------------------------------------------------
// SOCKS5.

/// Client-visible SOCKS5 method-negotiation response.
#[derive(Clone, Copy, Debug, PartialEq, Eq, Structural)]
pub enum Socks5GreetingResponse {
    NoAuthenticationRequired,
    NoAcceptableMethods,
}

pub open spec fn socks5_greeting_bytes(response: Socks5GreetingResponse) -> Seq<u8> {
    match response {
        Socks5GreetingResponse::NoAuthenticationRequired => seq![5u8, 0u8],
        Socks5GreetingResponse::NoAcceptableMethods => seq![5u8, 0xffu8],
    }
}

impl Socks5GreetingResponse {
    /// Version 5 followed by the selected method (`0xff`: none acceptable).
    pub fn as_bytes(self) -> (bytes: Vec<u8>)
        ensures
            bytes@ == socks5_greeting_bytes(self),
    {
        match self {
            Socks5GreetingResponse::NoAuthenticationRequired => vec![5u8, 0u8],
            Socks5GreetingResponse::NoAcceptableMethods => vec![5u8, 0xffu8],
        }
    }
}

/// Result of one SOCKS5 method-negotiation greeting.
#[derive(Clone, Copy, Debug, PartialEq, Eq, Structural)]
pub struct Socks5GreetingPreflight {
    pub response: Socks5GreetingResponse,
    pub accepted: bool,
}

/// A well-formed SOCKS5 greeting (version 5, a nonzero method count that
/// matches the length) that lists method `0x00`, no authentication.
pub open spec fn offers_no_auth(greeting: Seq<u8>) -> bool {
    &&& greeting.len() >= 2
    &&& greeting[0] == 5
    &&& greeting[1] > 0
    &&& greeting.len() == 2 + greeting[1]
    &&& greeting.subrange(2, greeting.len() as int).contains(0u8)
}

/// A well-formed greeting that lists no authentication (`0x00`) is
/// accepted, wherever among its method bytes the `0x00` stands.
pub proof fn lemma_no_auth_anywhere_accepted(greeting: Seq<u8>, j: int)
    requires
        greeting.len() >= 2,
        greeting[0] == 5,
        greeting[1] > 0,
        greeting.len() == 2 + greeting[1],
        2 <= j < greeting.len(),
        greeting[j] == 0,
    ensures
        offers_no_auth(greeting),
{
    assert(greeting.subrange(2, greeting.len() as int)[j - 2] == 0);
}

/// A greeting none of whose method bytes is `0x00` is refused.
pub proof fn lemma_no_auth_absent_refused(greeting: Seq<u8>)
    requires
        forall|j: int| 2 <= j < greeting.len() ==> greeting[j] != 0,
    ensures
        !offers_no_auth(greeting),
{
    if offers_no_auth(greeting) {
        let methods = greeting.subrange(2, greeting.len() as int);
        let k = methods.index_of(0u8);
        assert(greeting[k + 2] == methods[k]);
    }
}

/// Whether a greeting is accepted does not depend on the order of its
/// method bytes: swapping two of them gives the same answer.
pub proof fn lemma_greeting_method_order_irrelevant(greeting: Seq<u8>, a: int, b: int)
    requires
        2 <= a < greeting.len(),
        2 <= b < greeting.len(),
    ensures
        offers_no_auth(greeting) == offers_no_auth(
            greeting.update(a, greeting[b]).update(b, greeting[a]),
        ),
{
    let swapped = greeting.update(a, greeting[b]).update(b, greeting[a]);
    if offers_no_auth(greeting) {
        let methods = greeting.subrange(2, greeting.len() as int);
        let k = methods.index_of(0u8) + 2;
        assert(greeting[k] == 0);
        let k2 = if k == a {
            b
        } else if k == b {
            a
        } else {
            k
        };
        assert(swapped[k2] == 0);
        lemma_no_auth_anywhere_accepted(swapped, k2);
    }
    if offers_no_auth(swapped) {
        let methods = swapped.subrange(2, swapped.len() as int);
        let k = methods.index_of(0u8) + 2;
        assert(swapped[k] == methods[k - 2]);
        assert(swapped[k] == 0);
        let k2 = if k == a {
            b
        } else if k == b {
            a
        } else {
            k
        };
        assert(greeting[k2] == 0);
        lemma_no_auth_anywhere_accepted(greeting, k2);
    }
}

pub fn socks5_greeting_offers_no_auth(greeting: &[u8]) -> (offered: bool)
    ensures
        offered == offers_no_auth(greeting@),
{
    if greeting.len() < 2 || greeting[0] != 5 {
        return false;
    }
    let method_count = greeting[1] as usize;
    if method_count == 0 || greeting.len() != 2 + method_count {
        return false;
    }
    let ghost methods = greeting@.subrange(2, greeting@.len() as int);
    let mut i: usize = 2;
    while i < greeting.len()
        invariant
            2 <= i <= greeting@.len(),
            greeting@[0] == 5,
            greeting@[1] > 0,
            greeting@.len() == 2 + greeting@[1],
            methods == greeting@.subrange(2, greeting@.len() as int),
            forall|j: int| 2 <= j < i ==> greeting@[j] != 0,
        decreases greeting@.len() - i,
    {
        if greeting[i] == 0 {
            assert(methods[i - 2] == 0);
            assert(methods.contains(0u8));
            return true;
        }
        i = i + 1;
    }
    assert forall|k: int| 0 <= k < methods.len() implies methods[k] != 0 by {
        assert(methods[k] == greeting@[k + 2]);
    }
    false
}

/// SOCKS5 method negotiation: only method `0x00` (no authentication) is
/// supported; anything else, malformed lengths and other versions included,
/// is answered "no acceptable methods".
pub fn handle_greeting(greeting: &[u8]) -> (preflight: Socks5GreetingPreflight)
    ensures
        preflight.accepted == offers_no_auth(greeting@),
        preflight.response == (if preflight.accepted {
            Socks5GreetingResponse::NoAuthenticationRequired
        } else {
            Socks5GreetingResponse::NoAcceptableMethods
        }),
{
    let accepted = socks5_greeting_offers_no_auth(greeting);
    let response = if accepted {
        Socks5GreetingResponse::NoAuthenticationRequired
    } else {
        Socks5GreetingResponse::NoAcceptableMethods
    };
    Socks5GreetingPreflight { response, accepted }
}

/// Client-visible SOCKS5 CONNECT reply.
#[derive(Clone, Copy, Debug, PartialEq, Eq, Structural)]
pub enum Socks5Response {
    Succeeded,
    ConnectionNotAllowedByRuleset,
    GeneralFailure,
}

/// The reply code of `response`.
pub open spec fn socks5_reply_code(response: Socks5Response) -> u8 {
    match response {
        Socks5Response::Succeeded => 0,
        Socks5Response::ConnectionNotAllowedByRuleset => 2,
        Socks5Response::GeneralFailure => 1,
    }
}

/// Version, reply code, reserved byte, IPv4 address type, and an all-zero
/// bound address and port.
pub open spec fn socks5_response_bytes(response: Socks5Response) -> Seq<u8> {
    seq![5u8, socks5_reply_code(response), 0u8, 1u8, 0u8, 0u8, 0u8, 0u8, 0u8, 0u8]
}

impl Socks5Response {
    pub fn as_bytes(self) -> (bytes: Vec<u8>)
        ensures
            bytes@ == socks5_response_bytes(self),
    {
        let code: u8 = match self {
            Socks5Response::Succeeded => 0,
            Socks5Response::ConnectionNotAllowedByRuleset => 2,
            Socks5Response::GeneralFailure => 1,
        };
        let bytes = vec![5u8, code, 0u8, 1u8, 0u8, 0u8, 0u8, 0u8, 0u8, 0u8];
        assert(bytes@ =~= socks5_response_bytes(self));
        bytes
    }
}

/// SOCKS5 CONNECT preflight: allowed requests succeed, policy denials get
/// reply `0x02`, fail-closed (malformed or unsupported) and observed events
/// get general failure `0x01`.
pub fn socks5_connect_response(decision: AuditDecision) -> (response: Socks5Response)
    ensures
        response == (match decision {
            AuditDecision::Allowed => Socks5Response::Succeeded,
            AuditDecision::Denied => Socks5Response::ConnectionNotAllowedByRuleset,
            _ => Socks5Response::GeneralFailure,
        }),
{
    match decision {
        AuditDecision::Allowed => Socks5Response::Succeeded,
        AuditDecision::Denied => Socks5Response::ConnectionNotAllowedByRuleset,
        AuditDecision::FailClosed | AuditDecision::Observed => Socks5Response::GeneralFailure,
    }
}

/// What a SOCKS5 frontend does with an evaluated CONNECT request before
/// egress.
#[derive(Clone, Copy, Debug, PartialEq, Eq, Structural)]
pub enum Socks5TunnelStep {
    /// Reply to the client; egress is not contacted.
    Reply(Socks5Response),
    /// Connect to the target, once.
    Connect,
}

/// Whether an evaluated SOCKS5 CONNECT request goes to egress: a request
/// policy did not allow gets the reply for its decision and never reaches
/// egress; an allowed request without a target gets a general failure.
pub fn socks5_tunnel_step(decision: AuditDecision, target_ready: bool) -> (step: Socks5TunnelStep)
    ensures
        step == (if decision != AuditDecision::Allowed {
            Socks5TunnelStep::Reply(
                match decision {
                    AuditDecision::Denied => Socks5Response::ConnectionNotAllowedByRuleset,
                    _ => Socks5Response::GeneralFailure,
                },
            )
        } else if !target_ready {
            Socks5TunnelStep::Reply(Socks5Response::GeneralFailure)
        } else {
            Socks5TunnelStep::Connect
        }),
        step is Connect ==> decision == AuditDecision::Allowed,
{
    match decision {
        AuditDecision::Allowed => if target_ready {
            Socks5TunnelStep::Connect
        } else {
            Socks5TunnelStep::Reply(Socks5Response::GeneralFailure)
        },
        _ => Socks5TunnelStep::Reply(socks5_connect_response(decision)),
    }
}

/// The SOCKS5 reply once the connect reported: `Succeeded` for an opened
/// tunnel, a general failure when the host connect failed.
pub fn socks5_connect_reply(connected: bool) -> (reply: Socks5Response)
    ensures
        reply == (if connected {
            Socks5Response::Succeeded
        } else {
            Socks5Response::GeneralFailure
        }),
{
    if connected {
        Socks5Response::Succeeded
    } else {
        Socks5Response::GeneralFailure
    }
}

/// SOCKS5 one-connection runtime errors.
#[derive(Clone, Debug, PartialEq, Eq)]
pub enum Socks5ServeError {
    MalformedGreeting,
    UnsupportedAddressType { atyp: u8 },
    Io(String),
}

impl Socks5ServeError {
    /// A one-line description of the error.
    pub fn describe(&self) -> (text: String)
        ensures
            text@ == (match self {
                Socks5ServeError::MalformedGreeting => "socks5-malformed-greeting"@,
                Socks5ServeError::UnsupportedAddressType { atyp } => "socks5-unsupported-address-type: atyp="@
                    + decimal(*atyp as nat),
                Socks5ServeError::Io(detail) => "socks5-io-error: "@ + detail@,
            }),
    {
        let mut text = String::new();
        match self {
            Socks5ServeError::MalformedGreeting => {
                push_text(&mut text, "socks5-malformed-greeting");
            },
            Socks5ServeError::UnsupportedAddressType { atyp } => {
                push_text(&mut text, "socks5-unsupported-address-type: atyp=");
                push_decimal(&mut text, *atyp as u64);
            },
            Socks5ServeError::Io(detail) => {
                push_text(&mut text, "socks5-io-error: ");
                push_text(&mut text, detail.as_str());
            },
        }
        text
    }
}

// ---------------------------------------------------------------------------
// Framing of request heads read from a client stream.

/// Whether the first `n` bytes of `s` end with the blank line `\r\n\r\n`.
pub open spec fn ends_with_blank_line(s: Seq<u8>, n: int) -> bool {
    &&& 4 <= n <= s.len()
    &&& s[n - 4] == 13 && s[n - 3] == 10 && s[n - 2] == 13 && s[n - 1] == 10
}

fn blank_line_ends_at(s: &[u8], n: usize) -> (ends: bool)
    requires
        n <= s@.len(),
    ensures
        ends == ends_with_blank_line(s@, n as int),
{
    n >= 4 && s[n - 4] == 13 && s[n - 3] == 10 && s[n - 2] == 13 && s[n - 1] == 10
}

/// What reading a request head does next, given the bytes read so far.
#[derive(Clone, Copy, Debug, PartialEq, Eq, Structural)]
pub enum HeadStep {
    Complete,
    TooLarge,
    ReadMore,
}

/// The HTTP proxy frontend's decision after reading `request`: done once it
/// ends with a blank line, refused once it reached `limit` bytes without
/// one, and otherwise read one more byte (end of input also ends it).
pub fn http_request_head_step(request: &[u8], limit: usize) -> (step: HeadStep)
    ensures
        step == (if ends_with_blank_line(request@, request@.len() as int) {
            HeadStep::Complete
        } else if request@.len() >= limit {
            HeadStep::TooLarge
        } else {
            HeadStep::ReadMore
        }),
{
    if blank_line_ends_at(request, request.len()) {
        HeadStep::Complete
    } else if request.len() >= limit {
        HeadStep::TooLarge
    } else {
        HeadStep::ReadMore
    }
}

/// Whether the explicit-proxy runtime stops reading after `bytes`: at
/// `max_bytes` bytes or once they end with a blank line.
pub fn http_proxy_head_done(bytes: &[u8], max_bytes: usize) -> (done: bool)
    ensures
        done == (bytes@.len() >= max_bytes || ends_with_blank_line(bytes@, bytes@.len() as int)),
{
    bytes.len() >= max_bytes || blank_line_ends_at(bytes, bytes.len())
}

/// The request head that the explicit-proxy runtime takes from a client
/// whose stream yields `stream` before end of input: bytes are taken one at
/// a time until the head ends with a blank line, `max_bytes` bytes were
/// taken, or the input ends.
pub fn read_http_proxy_head(stream: &[u8], max_bytes: usize) -> (head: Vec<u8>)
    ensures
        head@.len() <= stream@.len(),
        head@ == stream@.take(head@.len() as int),
        head@.len() <= max_bytes,
        head@.len() == max_bytes || head@.len() == stream@.len() || ends_with_blank_line(
            stream@,
            head@.len() as int,
        ),
        forall|n: int| 0 <= n < head@.len() ==> !ends_with_blank_line(stream@, n),
{
    let mut taken: usize = 0;
    while taken < max_bytes && taken < stream.len()
        invariant
            taken <= max_bytes,
            taken <= stream@.len(),
            forall|n: int| 0 <= n <= taken ==> !ends_with_blank_line(stream@, n),
        decreases stream@.len() - taken,
    {
        taken = taken + 1;
        if blank_line_ends_at(stream, taken) {
            let head = copy_range(stream, 0, taken);
            assert(head@ =~= stream@.take(taken as int));
            return head;
        }
    }
    let head = copy_range(stream, 0, taken);
    assert(head@ =~= stream@.take(taken as int));
    head
}

/// The request head that the HTTP proxy frontend reads from a client whose
/// stream yields `stream` before end of input: bytes are taken until the
/// head ends with a blank line or the input ends; reaching `limit` bytes
/// without a blank line is an error.
pub fn http_request_head(stream: &[u8], limit: usize) -> (result: Result<Vec<u8>, HttpProxyServeError>)
    ensures
        result is Err <==> stream@.len() >= limit && forall|n: int|
            0 <= n <= limit ==> !ends_with_blank_line(stream@, n),
        result matches Err(e) ==> e == (HttpProxyServeError::RequestHeadTooLarge { limit }),
        result matches Ok(head) ==> {
            &&& head@ == stream@.take(head@.len() as int)
            &&& head@.len() <= limit
            &&& ends_with_blank_line(stream@, head@.len() as int) || head@.len() == stream@.len()
            &&& forall|n: int| 0 <= n < head@.len() ==> !ends_with_blank_line(stream@, n)
        },
{
    let mut taken: usize = 0;
    while !blank_line_ends_at(stream, taken)
        invariant
            taken <= stream@.len(),
            taken <= limit || (taken == 0 && limit == 0),
            forall|n: int| 0 <= n < taken ==> !ends_with_blank_line(stream@, n),
        decreases stream@.len() - taken,
    {
        if taken >= limit {
            return Err(HttpProxyServeError::RequestHeadTooLarge { limit });
        }
        if taken == stream.len() {
            let head = copy_range(stream, 0, taken);
            assert(head@ =~= stream@.take(taken as int));
            return Ok(head);
        }
        taken = taken + 1;
    }
    let head = copy_range(stream, 0, taken);
    assert(head@ =~= stream@.take(taken as int));
    Ok(head)
}

/// Length of the SOCKS5 greeting that starts with `prefix`: the version and
/// method-count bytes followed by that many methods; unknown until both
/// header bytes are there.
pub open spec fn socks5_greeting_len_spec(prefix: Seq<u8>) -> Option<nat> {
    if prefix.len() < 2 {
        None
    } else {
        Some((2 + prefix[1]) as nat)
    }
}

pub fn socks5_greeting_len(prefix: &[u8]) -> (len: Option<usize>)
    ensures
        len matches Some(n) ==> socks5_greeting_len_spec(prefix@) == Some(n as nat),
        len is None ==> socks5_greeting_len_spec(prefix@) is None,
{
    if prefix.len() < 2 {
        None
    } else {
        Some(2 + prefix[1] as usize)
    }
}

/// Length of the SOCKS5 CONNECT request that starts with `prefix`, from its
/// address type: IPv4 (`1`) has 10 bytes, IPv6 (`4`) 22, and a domain (`3`)
/// 7 plus the length byte's value; unknown until the header (and, for a
/// domain, its length byte) is there. Any other address type is refused.
pub open spec fn socks5_connect_len_spec(prefix: Seq<u8>) -> Result<Option<nat>, u8> {
    if prefix.len() < 4 {
        Ok(None)
    } else if prefix[3] == 1 {
        Ok(Some(10))
    } else if prefix[3] == 4 {
        Ok(Some(22))
    } else if prefix[3] == 3 {
        if prefix.len() < 5 {
            Ok(None)
        } else {
            Ok(Some((7 + prefix[4]) as nat))
        }
    } else {
        Err(prefix[3])
    }
}

pub fn socks5_connect_request_len(prefix: &[u8]) -> (result: Result<Option<usize>, Socks5ServeError>)
    ensures
        result matches Ok(Some(n)) ==> socks5_connect_len_spec(prefix@) == Ok::<Option<nat>, u8>(
            Some(n as nat),
        ),
        result matches Ok(None) ==> socks5_connect_len_spec(prefix@) == Ok::<Option<nat>, u8>(None),
        result matches Err(e) ==> socks5_connect_len_spec(prefix@) is Err && e == (
        Socks5ServeError::UnsupportedAddressType { atyp: socks5_connect_len_spec(prefix@)->Err_0 }),
{
    if prefix.len() < 4 {
        return Ok(None);
    }
    let atyp = prefix[3];
    if atyp == 1 {
        Ok(Some(10))
    } else if atyp == 4 {
        Ok(Some(22))
    } else if atyp == 3 {
        if prefix.len() < 5 {
            Ok(None)
        } else {
            Ok(Some(7 + prefix[4] as usize))
        }
    } else {
        Err(Socks5ServeError::UnsupportedAddressType { atyp })
    }
}

// ---------------------------------------------------------------------------
// Rewriting a forwarded request to origin form.

/// The text the bytes encode, when they are valid UTF-8
/// (`std::str::from_utf8`, which accepts exactly the valid UTF-8 byte
/// sequences and returns a string slice over the same bytes).
#[verifier::external_body]
fn utf8_text(bytes: &[u8]) -> (text: Option<&str>)
    ensures
        text is Some <==> valid_utf8(bytes@),
        text matches Some(t) ==> t@ == decode_utf8(bytes@),
{
    std::str::from_utf8(bytes).ok()
}

/// The words of `text` as `str::split_whitespace` yields them: the maximal
/// runs of characters without Unicode whitespace, in order.
pub uninterp spec fn whitespace_words_of(text: Seq<char>) -> Seq<Seq<char>>;

/// Splits `text` at runs of Unicode whitespace (`str::split_whitespace`).
/// The words are stated only as `whitespace_words_of(text@)`.
#[verifier::external_body]
fn whitespace_words<'a>(text: &'a str) -> (words: Vec<&'a str>)
    ensures
        words@.len() == whitespace_words_of(text@).len(),
        forall|i: int| 0 <= i < words@.len() ==> #[trigger] words@[i]@ == whitespace_words_of(text@)[i],
{
    text.split_whitespace().collect()
}

/// Index of the first `"\r\n"` of `head` at or after `from`.
pub open spec fn first_crlf_from(head: Seq<u8>, from: int) -> Option<int>
    decreases head.len() - from,
{
    if from < 0 || from + 1 >= head.len() {
        None
    } else if head[from] == 13 && head[from + 1] == 10 {
        Some(from)
    } else {
        first_crlf_from(head, from + 1)
    }
}

/// Index of the first `'\n'` of `head` at or after `from`.
pub open spec fn first_lf_from(head: Seq<u8>, from: int) -> Option<int>
    decreases head.len() - from,
{
    if from < 0 || from >= head.len() {
        None
    } else if head[from] == 10 {
        Some(from)
    } else {
        first_lf_from(head, from + 1)
    }
}

/// Where the request line of `head` ends: at its first `"\r\n"`, else at its
/// first `'\n'`.
pub open spec fn request_line_end(head: Seq<u8>) -> Option<int> {
    match first_crlf_from(head, 0) {
        Some(i) => Some(i),
        None => first_lf_from(head, 0),
    }
}

/// A request line of exactly three words, rewritten with `path_query` in
/// place of its second word, followed by `rest`.
pub open spec fn origin_form(words: Seq<Seq<char>>, path_query: Seq<char>, rest: Seq<u8>) -> Option<
    Seq<u8>,
> {
    if words.len() == 3 {
        Some(
            encode_utf8(words[0]) + seq![32u8] + encode_utf8(path_query) + seq![32u8] + encode_utf8(
                words[2],
            ) + rest,
        )
    } else {
        None
    }
}

/// `head` with its request line in origin form: the request's path and
/// query in place of the absolute URI, the rest of the head unchanged; none
/// for a head that is not UTF-8, has no line end, or whose request line does
/// not have three words.
pub open spec fn origin_form_head(path_query: Seq<char>, head: Seq<u8>) -> Option<Seq<u8>> {
    if !valid_utf8(head) {
        None
    } else {
        match request_line_end(head) {
            None => None,
            Some(e) => origin_form(
                whitespace_words_of(decode_utf8(head.subrange(0, e))),
                path_query,
                head.subrange(e, head.len() as int),
            ),
        }
    }
}

fn append_bytes(out: &mut Vec<u8>, src: &[u8])
    ensures
        final(out)@ == old(out)@ + src@,
{
    let mut i: usize = 0;
    while i < src.len()
        invariant
            i <= src@.len(),
            out@ == old(out)@ + src@.subrange(0, i as int),
        decreases src@.len() - i,
    {
        out.push(src[i]);
        i = i + 1;
        assert(out@ =~= old(out)@ + src@.subrange(0, i as int));
    }
    assert(src@.subrange(0, src@.len() as int) =~= src@);
}

/// The request line `words` rewritten to origin form with `path_query`,
/// followed by `rest`, when the line has exactly three words.
pub fn origin_form_request(words: &Vec<&str>, path_query: &str, rest: &[u8]) -> (request: Option<
    Vec<u8>,
>)
    ensures
        match origin_form(Seq::new(words@.len(), |i: int| words@[i]@), path_query@, rest@) {
            Some(bytes) => request matches Some(r) && r@ == bytes,
            None => request is None,
        },
{
    let ghost views = Seq::new(words@.len(), |i: int| words@[i]@);
    if words.len() != 3 {
        return None;
    }
    let mut out: Vec<u8> = Vec::new();
    append_bytes(&mut out, words[0].as_bytes());
    out.push(32u8);
    append_bytes(&mut out, path_query.as_bytes());
    out.push(32u8);
    append_bytes(&mut out, words[2].as_bytes());
    append_bytes(&mut out, rest);
    proof {
        assert(views[0] == words@[0]@);
        assert(views[2] == words@[2]@);
        assert(out@ =~= encode_utf8(views[0]) + seq![32u8] + encode_utf8(path_query@) + seq![32u8]
            + encode_utf8(views[2]) + rest@);
    }
    Some(out)
}

proof fn lemma_crlf_in_range(head: Seq<u8>, from: int)
    ensures
        first_crlf_from(head, from) matches Some(e) ==> 0 <= e < head.len() && head[e] == 13,
    decreases head.len() - from,
{
    if !(from < 0 || from + 1 >= head.len()) && !(head[from] == 13 && head[from + 1] == 10) {
        lemma_crlf_in_range(head, from + 1);
    }
}

proof fn lemma_lf_in_range(head: Seq<u8>, from: int)
    ensures
        first_lf_from(head, from) matches Some(e) ==> 0 <= e < head.len() && head[e] == 10,
    decreases head.len() - from,
{
    if !(from < 0 || from >= head.len()) && head[from] != 10 {
        lemma_lf_in_range(head, from + 1);
    }
}

fn request_line_end_of(head: &[u8]) -> (end: Option<usize>)
    ensures
        match request_line_end(head@) {
            Some(e) => end == Some(e as usize),
            None => end is None,
        },
{
    let n = head.len();
    let mut i: usize = 0;
    while i < n && i + 1 < n
        invariant
            n == head@.len(),
            i <= n,
            first_crlf_from(head@, 0) == first_crlf_from(head@, i as int),
        decreases n - i,
    {
        if head[i] == 13 && head[i + 1] == 10 {
            return Some(i);
        }
        i = i + 1;
    }
    let mut j: usize = 0;
    while j < n
        invariant
            n == head@.len(),
            j <= n,
            first_crlf_from(head@, 0) is None,
            first_lf_from(head@, 0) == first_lf_from(head@, j as int),
        decreases n - j,
    {
        if head[j] == 10 {
            return Some(j);
        }
        j = j + 1;
    }
    None
}

/// Rewrites a forwarded HTTP request head to origin form for the origin
/// server: the request line's absolute URI becomes the request's path and
/// query. Only HTTP request events are rewritten.
pub fn rewrite_http_request_for_origin(event: &PolicyEvent, request_head: &[u8]) -> (rewritten:
    Option<Vec<u8>>)
    ensures
        match event.kind {
            EventKind::HttpRequest { path_query, .. } => match origin_form_head(
                path_query@,
                request_head@,
            ) {
                Some(bytes) => rewritten matches Some(r) && r@ == bytes,
                None => rewritten is None,
            },
            _ => rewritten is None,
        },
{
    let path_query = match &event.kind {
        EventKind::HttpRequest { path_query, .. } => path_query.as_str(),
        _ => {
            return None;
        },
    };
    if utf8_text(request_head).is_none() {
        return None;
    }
    let end = match request_line_end_of(request_head) {
        Some(e) => e,
        None => {
            return None;
        },
    };
    let ghost head = request_head@;
    let head_len = request_head.len();
    proof {
        assert(head.len() == head_len);
        lemma_crlf_in_range(head, 0);
        lemma_lf_in_range(head, 0);
        match first_crlf_from(head, 0) {
            Some(e) => {
                assert(request_line_end(head) == Some(e));
                assert(0 <= e < head.len());
                assert(end as int == e);
                assert(head[end as int] == 13);
            },
            None => {
                assert(request_line_end(head) == first_lf_from(head, 0));
                let e = first_lf_from(head, 0)->Some_0;
                assert(0 <= e < head.len());
                assert(end as int == e);
                assert(head[end as int] == 10);
            },
        }
        assert(head[end as int] == 13 || head[end as int] == 10);
        vstd::utf8::is_char_boundary_iff_not_is_continuation_byte(head, end as int);
        vstd::utf8::valid_utf8_split(head, end as int);
    }
    let line_bytes = vstd::slice::slice_subrange(request_head, 0, end);
    let line = match utf8_text(line_bytes) {
        Some(line) => line,
        None => {
            return None;
        },
    };
    let words = whitespace_words(line);
    let rest = vstd::slice::slice_subrange(request_head, end, request_head.len());
    proof {
        assert(Seq::new(words@.len(), |i: int| words@[i]@) =~= whitespace_words_of(line@));
    }
    origin_form_request(&words, path_query, rest)
}

} // verus!
