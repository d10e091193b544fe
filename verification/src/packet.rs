//! Minimal IPv4 packet parser and synthesizer.
//!
//! Raw packet buffers terminate here: inspection yields a normalized event
//! (TCP connect attempt, UDP flow attempt, ICMP message, or a fail-closed
//! unsupported event), and synthesized packets are opaque byte buffers.

use crate::checksum::{checksum_of_range, checksum_spec, lemma_with_checksum_verifies, with_checksum};
use crate::model::{DenialAction, FrontendKind, SandboxId};
use crate::policy::{decision_denial_action, denial_action, PolicyDecision};
use vstd::prelude::*;

verus! {

/// Big-endian value of two bytes.
pub open spec fn be16(hi: u8, lo: u8) -> int {
    (hi as int) * 256 + (lo as int)
}

/// `s` with `t` written over it starting at `at`.
pub open spec fn splice(s: Seq<u8>, at: int, t: Seq<u8>) -> Seq<u8> {
    s.subrange(0, at) + t + s.subrange(at + t.len(), s.len() as int)
}

/// Which structural check a malformed packet failed.
#[derive(Clone, Copy, Debug, PartialEq, Eq, Structural)]
pub enum MalformedKind {
    ShortIpv4Header,
    InvalidIpv4Header,
    InvalidIpv4TotalLength,
    ShortIcmpMessage,
    ShortTcpHeader,
    InvalidTcpDataOffset,
    ShortUdpHeader,
    InvalidUdpLength,
    ShortOriginalPacket,
}

/// Why a packet could not be normalized; carries only safe metadata.
#[derive(Clone, Copy, Debug, PartialEq, Eq, Structural)]
pub enum PacketError {
    Malformed(MalformedKind),
    UnsupportedIpProtocol(u8),
    UnsupportedFragmentation { flags_fragment: u16 },
    TcpRequiresStackAdapter { flags: u8 },
}

/// Policy-facing reason of a fail-closed unsupported event.
#[derive(Clone, Copy, Debug, PartialEq, Eq, Structural)]
pub enum UnsupportedReason {
    MalformedPacket,
    UnsupportedIpProtocol(u8),
    UnsupportedFragmentation,
    StackAdapterRequired,
}

impl PacketError {
    pub open spec fn reason_spec(self) -> UnsupportedReason {
        match self {
            PacketError::Malformed(_) => UnsupportedReason::MalformedPacket,
            PacketError::UnsupportedIpProtocol(p) => UnsupportedReason::UnsupportedIpProtocol(p),
            PacketError::UnsupportedFragmentation { .. } => UnsupportedReason::UnsupportedFragmentation,
            PacketError::TcpRequiresStackAdapter { .. } => UnsupportedReason::StackAdapterRequired,
        }
    }

    pub fn reason(&self) -> (reason: UnsupportedReason)
        ensures
            reason == self.reason_spec(),
    {
        match self {
            PacketError::Malformed(_) => UnsupportedReason::MalformedPacket,
            PacketError::UnsupportedIpProtocol(p) => UnsupportedReason::UnsupportedIpProtocol(*p),
            PacketError::UnsupportedFragmentation { .. } => UnsupportedReason::UnsupportedFragmentation,
            PacketError::TcpRequiresStackAdapter { .. } => UnsupportedReason::StackAdapterRequired,
        }
    }
}

// ---------------------------------------------------------------------------
// Specification of the IPv4 header checks.

pub open spec fn ip_version(b: Seq<u8>) -> int {
    b[0] as int / 16
}

pub open spec fn header_len(b: Seq<u8>) -> int {
    (b[0] as int % 16) * 4
}

pub open spec fn total_length(b: Seq<u8>) -> int {
    be16(b[2], b[3])
}

pub open spec fn flags_fragment(b: Seq<u8>) -> int {
    be16(b[6], b[7])
}

/// The error that the IPv4 header checks report for `b`, if any.
pub open spec fn ipv4_header_error(b: Seq<u8>) -> Option<PacketError> {
    if b.len() < 20 {
        Some(PacketError::Malformed(MalformedKind::ShortIpv4Header))
    } else if ip_version(b) != 4 || header_len(b) < 20 || b.len() < header_len(b) {
        Some(PacketError::Malformed(MalformedKind::InvalidIpv4Header))
    } else if total_length(b) < header_len(b) || total_length(b) > b.len() {
        Some(PacketError::Malformed(MalformedKind::InvalidIpv4TotalLength))
    } else if flags_fragment(b) % 0x4000 != 0 {
        Some(PacketError::UnsupportedFragmentation { flags_fragment: flags_fragment(b) as u16 })
    } else {
        None
    }
}

/// The flags/fragment field marks a fragment exactly when More Fragments
/// (bit 5 of byte 6) or a nonzero fragment offset (the low 5 bits of byte 6
/// and byte 7) is set; the Don't Fragment and reserved bits do not count.
proof fn lemma_fragment_bits(hi: u8, lo: u8)
    ensures
        (be16(hi, lo) % 0x4000 != 0) <==> (hi % 64 != 0 || lo != 0),
{
    assert((((hi as u32) * 256 + (lo as u32)) % 0x4000 != 0) <==> ((hi as u32) % 64 != 0 || (lo as u32)
        != 0)) by (bit_vector);
    assert(((hi as u32) * 256 + (lo as u32)) as int == be16(hi, lo));
}

/// Fragmentation is reported only for a fragment: a packet whose header
/// checks pass otherwise is refused as fragmented exactly when More
/// Fragments is set or its fragment offset is nonzero. Don't Fragment alone
/// (byte 6 = 0x40, byte 7 = 0), as Linux sends by default, is no fragment.
pub proof fn lemma_fragmentation_only_for_fragments(b: Seq<u8>)
    requires
        b.len() >= 20,
        ip_version(b) == 4,
        20 <= header_len(b) <= b.len(),
        header_len(b) <= total_length(b) <= b.len(),
    ensures
        (ipv4_header_error(b) matches Some(PacketError::UnsupportedFragmentation { .. })) <==> (b[6]
            % 64 != 0 || b[7] != 0),
        ipv4_header_error(b) is None <==> (b[6] % 64 == 0 && b[7] == 0),
{
    lemma_fragment_bits(b[6], b[7]);
}

/// A packet that differs from another only in the Don't Fragment and
/// reserved bits of byte 6 is inspected to the same result: the same error
/// or none, and for TCP and UDP the same event.
pub proof fn lemma_dont_fragment_inspects_as_unfragmented(
    b: Seq<u8>,
    q: Seq<u8>,
    sandbox: Seq<char>,
    frontend: FrontendKind,
    ins: PacketInspection,
)
    requires
        b.len() == q.len(),
        b.len() >= 20,
        forall|j: int| 0 <= j < b.len() && j != 6 ==> b[j] == q[j],
        b[6] % 64 == q[6] % 64,
    ensures
        inspect_error(b) is None <==> inspect_error(q) is None,
        !(ipv4_header_error(b) matches Some(PacketError::UnsupportedFragmentation { .. })) ==> inspect_error(b)
            == inspect_error(q),
        b[9] != 1 && !(ipv4_header_error(b) matches Some(PacketError::UnsupportedFragmentation { .. }))
            ==> (inspection_of(sandbox, frontend, b, ins) <==> inspection_of(sandbox, frontend, q, ins)),
{
    lemma_fragment_bits(b[6], b[7]);
    lemma_fragment_bits(q[6], q[7]);
    assert(b[0] == q[0] && b[2] == q[2] && b[3] == q[3] && b[7] == q[7] && b[9] == q[9]);
    assert(b.subrange(12, 16) =~= q.subrange(12, 16));
    assert(b.subrange(16, 20) =~= q.subrange(16, 20));
    if ipv4_header_error(b) is None {
        assert(ip_payload(b) =~= ip_payload(q));
    }
}

/// The transport payload of an IPv4 packet with a valid header.
pub open spec fn ip_payload(b: Seq<u8>) -> Seq<u8> {
    b.subrange(header_len(b), total_length(b))
}

pub open spec fn tcp_error(t: Seq<u8>) -> Option<PacketError> {
    if t.len() < 20 {
        Some(PacketError::Malformed(MalformedKind::ShortTcpHeader))
    } else if (t[12] as int / 16) * 4 < 20 || t.len() < (t[12] as int / 16) * 4 {
        Some(PacketError::Malformed(MalformedKind::InvalidTcpDataOffset))
    } else if (t[13] as int / 2) % 2 == 0 || (t[13] as int / 16) % 2 == 1 {
        Some(PacketError::TcpRequiresStackAdapter { flags: t[13] })
    } else {
        None
    }
}

pub open spec fn udp_error(u: Seq<u8>) -> Option<PacketError> {
    if u.len() < 8 {
        Some(PacketError::Malformed(MalformedKind::ShortUdpHeader))
    } else if be16(u[4], u[5]) < 8 || be16(u[4], u[5]) > u.len() {
        Some(PacketError::Malformed(MalformedKind::InvalidUdpLength))
    } else {
        None
    }
}

/// The error that inspecting `b` reports, or `None` when `b` normalizes to
/// an ICMP message, a TCP SYN, or a UDP datagram.
pub open spec fn inspect_error(b: Seq<u8>) -> Option<PacketError> {
    match ipv4_header_error(b) {
        Some(e) => Some(e),
        None => if b[9] == 1 {
            if ip_payload(b).len() < 8 {
                Some(PacketError::Malformed(MalformedKind::ShortIcmpMessage))
            } else {
                None
            }
        } else if b[9] == 6 {
            tcp_error(ip_payload(b))
        } else if b[9] == 17 {
            udp_error(ip_payload(b))
        } else {
            Some(PacketError::UnsupportedIpProtocol(b[9]))
        },
    }
}

/// The ICMP echo reply for echo request `b`: addresses swapped, TTL 64,
/// type 0, both checksums recomputed.
pub open spec fn echo_reply_spec(b: Seq<u8>) -> Seq<u8> {
    let ihl = header_len(b);
    let total = total_length(b);
    let r0 = splice(splice(b.subrange(0, total), 12, b.subrange(16, 20)), 16, b.subrange(12, 16)).update(8, 64u8).update(ihl, 0u8);
    let r1 = splice(r0, ihl, with_checksum(r0.subrange(ihl, total), 2));
    splice(r1, 0, with_checksum(r1.subrange(0, ihl), 10))
}

/// The ICMP destination-unreachable packet answering `b` with `code`.
pub open spec fn unreachable_spec(b: Seq<u8>, code: u8) -> Seq<u8> {
    let ihl = header_len(b);
    let total = total_length(b);
    let prefix = if ihl + 8 < total { ihl + 8 } else { total };
    let n = 28 + prefix;
    let p0 = Seq::new(n as nat, |i: int| 0u8).update(0, 0x45u8).update(2, (n / 256) as u8).update(3, (n % 256) as u8).update(8, 64u8).update(9, 1u8);
    let p1 = splice(splice(p0, 12, b.subrange(16, 20)), 16, b.subrange(12, 16)).update(20, 3u8).update(21, code);
    let p2 = splice(p1, 28, b.subrange(0, prefix));
    let p3 = splice(p2, 20, with_checksum(p2.subrange(20, n), 2));
    splice(p3, 0, with_checksum(p3.subrange(0, 20), 10))
}

// ---------------------------------------------------------------------------
// Normalized events.

/// An IPv4 address and transport port taken from a packet.
#[derive(Clone, Copy, Debug, PartialEq, Eq)]
pub struct Ipv4Endpoint {
    pub ip: [u8; 4],
    pub port: u16,
}

#[derive(Clone, Debug, PartialEq, Eq)]
pub struct IcmpMessage {
    pub sandbox_id: SandboxId,
    pub frontend: FrontendKind,
    pub icmp_type: u8,
    pub icmp_code: u8,
    pub source: [u8; 4],
    pub destination: [u8; 4],
}

#[derive(Clone, Debug, PartialEq, Eq)]
pub struct TcpConnectAttempt {
    pub sandbox_id: SandboxId,
    pub frontend: FrontendKind,
    pub source: Ipv4Endpoint,
    pub destination: Ipv4Endpoint,
}

#[derive(Clone, Debug, PartialEq, Eq)]
pub struct UdpFlowAttempt {
    pub sandbox_id: SandboxId,
    pub frontend: FrontendKind,
    pub source: Ipv4Endpoint,
    pub destination: Ipv4Endpoint,
}

#[derive(Clone, Debug, PartialEq, Eq)]
pub struct UnsupportedNetworkEvent {
    pub sandbox_id: SandboxId,
    pub frontend: FrontendKind,
    pub reason: UnsupportedReason,
    pub detail: PacketError,
}

/// Policy-relevant metadata of one inbound packet.
#[derive(Clone, Debug, PartialEq, Eq)]
pub enum NormalizedEvent {
    IcmpMessage(IcmpMessage),
    TcpConnectAttempt(TcpConnectAttempt),
    UdpFlowAttempt(UdpFlowAttempt),
    UnsupportedNetworkEvent(UnsupportedNetworkEvent),
}

/// Opaque synthetic IP packet to write back to the device frontend.
#[derive(Clone, Debug, PartialEq, Eq)]
pub struct SyntheticIpPacket {
    bytes: Vec<u8>,
}

impl View for SyntheticIpPacket {
    type V = Seq<u8>;

    closed spec fn view(&self) -> Seq<u8> {
        self.bytes@
    }
}

impl SyntheticIpPacket {
    pub fn bytes(&self) -> (bytes: &[u8])
        ensures
            bytes@ == self@,
    {
        self.bytes.as_slice()
    }
}

/// Result of inspecting one inbound IP packet.
#[derive(Clone, Debug, PartialEq, Eq)]
pub struct PacketInspection {
    pub event: NormalizedEvent,
    pub synthetic_reply: Option<SyntheticIpPacket>,
    pub udp_payload: Option<Vec<u8>>,
}

pub open spec fn endpoint_is(e: Ipv4Endpoint, ip: Seq<u8>, hi: u8, lo: u8) -> bool {
    e.ip@ == ip && e.port == be16(hi, lo)
}

/// What inspecting `b` yields for the given sandbox and frontend.
pub open spec fn inspection_of(
    sandbox: Seq<char>,
    frontend: FrontendKind,
    b: Seq<u8>,
    ins: PacketInspection,
) -> bool {
    match inspect_error(b) {
        Some(e) => {
            &&& ins.event matches NormalizedEvent::UnsupportedNetworkEvent(ev)
            &&& ev.sandbox_id@ == sandbox && ev.frontend == frontend
            &&& ev.reason == e.reason_spec() && ev.detail == e
            &&& ins.synthetic_reply is None
            &&& ins.udp_payload is None
        },
        None => {
            let p = ip_payload(b);
            if b[9] == 1 {
                &&& ins.event matches NormalizedEvent::IcmpMessage(ev)
                &&& ev.sandbox_id@ == sandbox && ev.frontend == frontend
                &&& ev.icmp_type == p[0] && ev.icmp_code == p[1]
                &&& ev.source@ == b.subrange(12, 16) && ev.destination@ == b.subrange(16, 20)
                &&& if p[0] == 8 && p[1] == 0 {
                    ins.synthetic_reply matches Some(r) && r@ == echo_reply_spec(b)
                } else {
                    ins.synthetic_reply is None
                }
                &&& ins.udp_payload is None
            } else if b[9] == 6 {
                &&& ins.event matches NormalizedEvent::TcpConnectAttempt(ev)
                &&& ev.sandbox_id@ == sandbox && ev.frontend == frontend
                &&& endpoint_is(ev.source, b.subrange(12, 16), p[0], p[1])
                &&& endpoint_is(ev.destination, b.subrange(16, 20), p[2], p[3])
                &&& ins.synthetic_reply is None
                &&& ins.udp_payload is None
            } else {
                &&& ins.event matches NormalizedEvent::UdpFlowAttempt(ev)
                &&& ev.sandbox_id@ == sandbox && ev.frontend == frontend
                &&& endpoint_is(ev.source, b.subrange(12, 16), p[0], p[1])
                &&& endpoint_is(ev.destination, b.subrange(16, 20), p[2], p[3])
                &&& ins.synthetic_reply is None
                &&& ins.udp_payload matches Some(data) && data@ == p.subrange(8, be16(p[4], p[5]))
            }
        },
    }
}

// ---------------------------------------------------------------------------
// Executable parser.

/// Validated IPv4 header fields.
#[derive(Clone, Copy, Debug, PartialEq, Eq)]
pub struct Ipv4Header {
    pub ihl: usize,
    pub total_len: usize,
    pub protocol: u8,
    pub source: [u8; 4],
    pub destination: [u8; 4],
}

pub open spec fn header_fields_of(h: Ipv4Header, b: Seq<u8>) -> bool {
    &&& h.ihl == header_len(b)
    &&& h.total_len == total_length(b)
    &&& h.protocol == b[9]
    &&& h.source@ == b.subrange(12, 16)
    &&& h.destination@ == b.subrange(16, 20)
    &&& 20 <= h.ihl <= h.total_len <= b.len()
    &&& h.total_len <= 0xffff
}

fn read_be16(bytes: &[u8], at: usize) -> (value: usize)
    requires
        at + 1 < bytes@.len(),
    ensures
        value == be16(bytes@[at as int], bytes@[at + 1]),
        value <= 0xffff,
{
    (bytes[at] as usize) * 256 + (bytes[at + 1] as usize)
}

fn parse_ipv4_header(bytes: &[u8]) -> (result: Result<Ipv4Header, PacketError>)
    ensures
        match ipv4_header_error(bytes@) {
            Some(e) => result == Err::<Ipv4Header, PacketError>(e),
            None => result matches Ok(h) && header_fields_of(h, bytes@),
        },
{
    if bytes.len() < 20 {
        return Err(PacketError::Malformed(MalformedKind::ShortIpv4Header));
    }
    let version = bytes[0] / 16;
    let ihl = ((bytes[0] % 16) as usize) * 4;
    if version != 4 || ihl < 20 || bytes.len() < ihl {
        return Err(PacketError::Malformed(MalformedKind::InvalidIpv4Header));
    }
    let total_len = read_be16(bytes, 2);
    if total_len < ihl || total_len > bytes.len() {
        return Err(PacketError::Malformed(MalformedKind::InvalidIpv4TotalLength));
    }
    let flags_fragment = read_be16(bytes, 6);
    if flags_fragment % 0x4000 != 0 {
        return Err(PacketError::UnsupportedFragmentation { flags_fragment: flags_fragment as u16 });
    }
    let source = [bytes[12], bytes[13], bytes[14], bytes[15]];
    let destination = [bytes[16], bytes[17], bytes[18], bytes[19]];
    assert(source@ =~= bytes@.subrange(12, 16));
    assert(destination@ =~= bytes@.subrange(16, 20));
    Ok(Ipv4Header { ihl, total_len, protocol: bytes[9], source, destination })
}

// ---------------------------------------------------------------------------
// Byte-buffer helpers.

/// Splicing keeps the length and the bytes outside the written window.
pub proof fn lemma_splice(s: Seq<u8>, at: int, t: Seq<u8>)
    requires
        0 <= at,
        at + t.len() <= s.len(),
    ensures
        splice(s, at, t).len() == s.len(),
        splice(s, at, t).subrange(at, at + t.len()) == t,
        splice(s, at, t).subrange(0, at) == s.subrange(0, at),
        splice(s, at, t).subrange(at + t.len(), s.len() as int) == s.subrange(
            at + t.len(),
            s.len() as int,
        ),
        forall|i: int|
            0 <= i < s.len() && !(at <= i < at + t.len()) ==> #[trigger] splice(s, at, t)[i]
                == s[i],
        forall|i: int| at <= i < at + t.len() ==> #[trigger] splice(s, at, t)[i] == t[i - at],
{
    let r = splice(s, at, t);
    assert(r.subrange(at, at + t.len()) =~= t);
    assert(r.subrange(0, at) =~= s.subrange(0, at));
    assert(r.subrange(at + t.len(), s.len() as int) =~= s.subrange(at + t.len(), s.len() as int));
}

fn high_byte(value: usize) -> (byte: u8)
    requires
        value <= 0xffff,
    ensures
        byte == value / 256,
{
    (value / 256) as u8
}

fn low_byte(value: usize) -> (byte: u8)
    ensures
        byte == value % 256,
{
    (value % 256) as u8
}

/// Overwrites `buf[at..]` with `src[from..to]`.
fn copy_into(buf: &mut Vec<u8>, at: usize, src: &[u8], from: usize, to: usize)
    requires
        from <= to <= src@.len(),
        at + (to - from) <= old(buf)@.len(),
    ensures
        final(buf)@ == splice(old(buf)@, at as int, src@.subrange(from as int, to as int)),
{
    let ghost original = buf@;
    let buf_len = buf.len();
    let count = to - from;
    let mut i: usize = 0;
    proof {
        assert(splice(original, at as int, src@.subrange(from as int, from as int)) =~= original);
    }
    while i < count
        invariant
            count == to - from,
            from <= to <= src@.len(),
            at + count <= buf_len,
            buf_len == original.len(),
            i <= count,
            buf@ == splice(original, at as int, src@.subrange(from as int, (from + i) as int)),
            buf@.len() == original.len(),
        decreases count - i,
    {
        buf.set(at + i, src[from + i]);
        proof {
            assert(buf@ =~= splice(
                original,
                at as int,
                src@.subrange(from as int, (from + i + 1) as int),
            ));
            lemma_splice(original, at as int, src@.subrange(from as int, (from + i + 1) as int));
        }
        i = i + 1;
    }
}

/// Fills the checksum field at even offset `k` of `buf[start..end]` with
/// the Internet checksum of that range (taken with the field zeroed).
pub(crate) fn fill_checksum(buf: &mut Vec<u8>, start: usize, end: usize, k: usize)
    requires
        start + k + 1 < end <= old(buf)@.len(),
        k % 2 == 0,
        end - start <= 131074,
    ensures
        final(buf)@ == splice(
            old(buf)@,
            start as int,
            with_checksum(old(buf)@.subrange(start as int, end as int), k as int),
        ),
{
    let ghost original = buf@;
    buf.set(start + k, 0);
    buf.set(start + k + 1, 0);
    let ghost zeroed = buf@;
    let c = checksum_of_range(buf.as_slice(), start, end);
    proof {
        assert(zeroed.subrange(start as int, end as int) =~= original.subrange(
            start as int,
            end as int,
        ).update(k as int, 0).update(k + 1, 0));
    }
    buf.set(start + k, (c / 256) as u8);
    buf.set(start + k + 1, (c % 256) as u8);
    proof {
        assert(buf@ =~= splice(
            original,
            start as int,
            with_checksum(original.subrange(start as int, end as int), k as int),
        ));
    }
}

/// A fresh buffer of `len` zero bytes.
fn zeroed_buffer(len: usize) -> (buf: Vec<u8>)
    ensures
        buf@ == Seq::new(len as nat, |i: int| 0u8),
{
    let mut buf: Vec<u8> = Vec::with_capacity(len);
    let mut i: usize = 0;
    while i < len
        invariant
            i <= len,
            buf@ == Seq::new(i as nat, |j: int| 0u8),
        decreases len - i,
    {
        buf.push(0);
        i = i + 1;
        assert(buf@ =~= Seq::new(i as nat, |j: int| 0u8));
    }
    buf
}

/// `bytes[from..to]` as a new vector.
pub(crate) fn copy_range(bytes: &[u8], from: usize, to: usize) -> (out: Vec<u8>)
    requires
        from <= to <= bytes@.len(),
    ensures
        out@ == bytes@.subrange(from as int, to as int),
{
    let mut out: Vec<u8> = Vec::with_capacity(to - from);
    let mut i: usize = from;
    while i < to
        invariant
            from <= i <= to <= bytes@.len(),
            out@ == bytes@.subrange(from as int, i as int),
        decreases to - i,
    {
        out.push(bytes[i]);
        i = i + 1;
        assert(out@ =~= bytes@.subrange(from as int, i as int));
    }
    out
}

// ---------------------------------------------------------------------------
// Synthesis.

fn synthesize_echo_reply(bytes: &[u8], header: Ipv4Header) -> (reply: Vec<u8>)
    requires
        header_fields_of(header, bytes@),
        ip_payload(bytes@).len() >= 8,
    ensures
        reply@ == echo_reply_spec(bytes@),
{
    let ihl = header.ihl;
    let total = header.total_len;
    let mut reply = copy_range(bytes, 0, total);
    copy_into(&mut reply, 12, bytes, 16, 20);
    copy_into(&mut reply, 16, bytes, 12, 16);
    reply.set(8, 64);
    reply.set(ihl, 0);
    fill_checksum(&mut reply, ihl, total, 2);
    fill_checksum(&mut reply, 0, ihl, 10);
    reply
}

/// Synthesize the packet-level answer to a denied packet: only a denial
/// whose action is `IcmpUnreachable` gets one, an ICMP "communication
/// administratively prohibited" (code 13); a drop or reset, and any decision
/// that is not a denial, get no packet.
pub fn synthesize_ipv4_denial_response(original_packet: &[u8], decision: &PolicyDecision) -> (result:
    Result<Option<SyntheticIpPacket>, PacketError>)
    ensures
        denial_action(*decision) != Some(DenialAction::IcmpUnreachable) ==> result == Ok::<
            Option<SyntheticIpPacket>,
            PacketError,
        >(None),
        denial_action(*decision) == Some(DenialAction::IcmpUnreachable) ==> match ipv4_header_error(
            original_packet@,
        ) {
            Some(e) => result == Err::<Option<SyntheticIpPacket>, PacketError>(e),
            None => result matches Ok(Some(p)) && p@ == unreachable_spec(original_packet@, 13),
        },
{
    match decision_denial_action(decision) {
        Some(DenialAction::IcmpUnreachable) => match synthesize_ipv4_icmp_unreachable(
            original_packet,
            13,
        ) {
            Ok(packet) => Ok(Some(packet)),
            Err(e) => Err(e),
        },
        _ => Ok(None),
    }
}

/// Synthesize an IPv4 ICMP destination-unreachable response for denied traffic.
///
/// Callers choose the ICMP code (for example, 3 for port unreachable or 13 for
/// administratively prohibited). The response quotes the original header and
/// the first eight payload bytes, and both of its checksums are filled in.
pub fn synthesize_ipv4_icmp_unreachable(original_packet: &[u8], code: u8) -> (result: Result<
    SyntheticIpPacket,
    PacketError,
>)
    ensures
        match ipv4_header_error(original_packet@) {
            Some(e) => result == Err::<SyntheticIpPacket, PacketError>(e),
            None => result matches Ok(p) && p@ == unreachable_spec(original_packet@, code),
        },
{
    let header = match parse_ipv4_header(original_packet) {
        Ok(header) => header,
        Err(error) => return Err(error),
    };
    let original_prefix_len = if header.ihl + 8 < header.total_len {
        header.ihl + 8
    } else {
        header.total_len
    };
    if original_prefix_len < header.ihl {
        return Err(PacketError::Malformed(MalformedKind::ShortOriginalPacket));
    }
    let total_len = 28 + original_prefix_len;
    let mut packet = zeroed_buffer(total_len);
    packet.set(0, 0x45);
    packet.set(2, high_byte(total_len));
    packet.set(3, low_byte(total_len));
    packet.set(8, 64);
    packet.set(9, 1);
    copy_into(&mut packet, 12, original_packet, 16, 20);
    copy_into(&mut packet, 16, original_packet, 12, 16);
    packet.set(20, 3);
    packet.set(21, code);
    copy_into(&mut packet, 28, original_packet, 0, original_prefix_len);
    fill_checksum(&mut packet, 20, total_len, 2);
    fill_checksum(&mut packet, 0, 20, 10);
    Ok(SyntheticIpPacket { bytes: packet })
}

// ---------------------------------------------------------------------------
// Inspection.

fn read_port(bytes: &[u8], at: usize) -> (port: u16)
    requires
        at + 1 < bytes@.len(),
    ensures
        port == be16(bytes@[at as int], bytes@[at + 1]),
{
    let value = read_be16(bytes, at);
    value as u16
}

fn endpoint(ip: [u8; 4], port: u16) -> (e: Ipv4Endpoint)
    ensures
        e.ip == ip,
        e.port == port,
{
    Ipv4Endpoint { ip, port }
}

fn inspect_icmp_packet(
    sandbox_id: SandboxId,
    frontend: FrontendKind,
    bytes: &[u8],
    header: Ipv4Header,
) -> (result: Result<PacketInspection, PacketError>)
    requires
        header_fields_of(header, bytes@),
        ipv4_header_error(bytes@) is None,
        bytes@[9] == 1,
    ensures
        match result {
            Ok(ins) => inspect_error(bytes@) is None && inspection_of(
                sandbox_id@,
                frontend,
                bytes@,
                ins,
            ),
            Err(e) => inspect_error(bytes@) == Some(e),
        },
{
    let ihl = header.ihl;
    if header.total_len - ihl < 8 {
        return Err(PacketError::Malformed(MalformedKind::ShortIcmpMessage));
    }
    let message_type = bytes[ihl];
    let message_code = bytes[ihl + 1];
    let synthetic_reply = if message_type == 8 && message_code == 0 {
        Some(SyntheticIpPacket { bytes: synthesize_echo_reply(bytes, header) })
    } else {
        None
    };
    let event = NormalizedEvent::IcmpMessage(
        IcmpMessage {
            sandbox_id,
            frontend,
            icmp_type: message_type,
            icmp_code: message_code,
            source: header.source,
            destination: header.destination,
        },
    );
    Ok(PacketInspection { event, synthetic_reply, udp_payload: None })
}

fn inspect_tcp_packet(
    sandbox_id: SandboxId,
    frontend: FrontendKind,
    bytes: &[u8],
    header: Ipv4Header,
) -> (result: Result<PacketInspection, PacketError>)
    requires
        header_fields_of(header, bytes@),
        ipv4_header_error(bytes@) is None,
        bytes@[9] == 6,
    ensures
        match result {
            Ok(ins) => inspect_error(bytes@) is None && inspection_of(
                sandbox_id@,
                frontend,
                bytes@,
                ins,
            ),
            Err(e) => inspect_error(bytes@) == Some(e),
        },
{
    let ihl = header.ihl;
    let tcp_len = header.total_len - ihl;
    let ghost t = ip_payload(bytes@);
    assert(t.len() == tcp_len);
    if tcp_len < 20 {
        return Err(PacketError::Malformed(MalformedKind::ShortTcpHeader));
    }
    assert(t[12] == bytes@[ihl + 12] && t[13] == bytes@[ihl + 13]);
    let data_offset = ((bytes[ihl + 12] / 16) as usize) * 4;
    if data_offset < 20 || tcp_len < data_offset {
        return Err(PacketError::Malformed(MalformedKind::InvalidTcpDataOffset));
    }
    let flags = bytes[ihl + 13];
    let syn = (flags / 2) % 2 == 1;
    let ack = (flags / 16) % 2 == 1;
    if !syn || ack {
        return Err(PacketError::TcpRequiresStackAdapter { flags });
    }
    assert(t[0] == bytes@[ihl as int] && t[1] == bytes@[ihl + 1]);
    assert(t[2] == bytes@[ihl + 2] && t[3] == bytes@[ihl + 3]);
    let source_port = read_port(bytes, ihl);
    let destination_port = read_port(bytes, ihl + 2);
    let event = NormalizedEvent::TcpConnectAttempt(
        TcpConnectAttempt {
            sandbox_id,
            frontend,
            source: endpoint(header.source, source_port),
            destination: endpoint(header.destination, destination_port),
        },
    );
    Ok(PacketInspection { event, synthetic_reply: None, udp_payload: None })
}

fn inspect_udp_packet(
    sandbox_id: SandboxId,
    frontend: FrontendKind,
    bytes: &[u8],
    header: Ipv4Header,
) -> (result: Result<PacketInspection, PacketError>)
    requires
        header_fields_of(header, bytes@),
        ipv4_header_error(bytes@) is None,
        bytes@[9] == 17,
    ensures
        match result {
            Ok(ins) => inspect_error(bytes@) is None && inspection_of(
                sandbox_id@,
                frontend,
                bytes@,
                ins,
            ),
            Err(e) => inspect_error(bytes@) == Some(e),
        },
{
    let ihl = header.ihl;
    let udp_available = header.total_len - ihl;
    let ghost u = ip_payload(bytes@);
    assert(u.len() == udp_available);
    if udp_available < 8 {
        return Err(PacketError::Malformed(MalformedKind::ShortUdpHeader));
    }
    assert(u[0] == bytes@[ihl as int] && u[1] == bytes@[ihl + 1]);
    assert(u[2] == bytes@[ihl + 2] && u[3] == bytes@[ihl + 3]);
    assert(u[4] == bytes@[ihl + 4] && u[5] == bytes@[ihl + 5]);
    let source_port = read_port(bytes, ihl);
    let destination_port = read_port(bytes, ihl + 2);
    let udp_len = read_be16(bytes, ihl + 4);
    if udp_len < 8 || udp_len > udp_available {
        return Err(PacketError::Malformed(MalformedKind::InvalidUdpLength));
    }
    let payload = copy_range(bytes, ihl + 8, ihl + udp_len);
    assert(payload@ =~= u.subrange(8, udp_len as int));
    let event = NormalizedEvent::UdpFlowAttempt(
        UdpFlowAttempt {
            sandbox_id,
            frontend,
            source: endpoint(header.source, source_port),
            destination: endpoint(header.destination, destination_port),
        },
    );
    Ok(PacketInspection { event, synthetic_reply: None, udp_payload: Some(payload) })
}

fn inspect_ipv4_packet_inner(
    sandbox_id: SandboxId,
    frontend: FrontendKind,
    bytes: &[u8],
) -> (result: Result<PacketInspection, PacketError>)
    ensures
        match result {
            Ok(ins) => inspect_error(bytes@) is None && inspection_of(
                sandbox_id@,
                frontend,
                bytes@,
                ins,
            ),
            Err(e) => inspect_error(bytes@) == Some(e),
        },
{
    let header = match parse_ipv4_header(bytes) {
        Ok(header) => header,
        Err(error) => return Err(error),
    };
    if header.protocol == 1 {
        inspect_icmp_packet(sandbox_id, frontend, bytes, header)
    } else if header.protocol == 6 {
        inspect_tcp_packet(sandbox_id, frontend, bytes, header)
    } else if header.protocol == 17 {
        inspect_udp_packet(sandbox_id, frontend, bytes, header)
    } else {
        Err(PacketError::UnsupportedIpProtocol(header.protocol))
    }
}

/// Inspect an IPv4 packet and normalize the policy-relevant metadata.
///
/// The packet boundary exposes TCP connect attempts (SYN without ACK), UDP
/// flow attempts with their payload, ICMP messages (with a synthesized reply
/// for echo requests), and fail-closed unsupported events for everything
/// else. It does not expose raw headers to policy or audit layers.
pub fn inspect_ipv4_packet(sandbox_id: SandboxId, frontend: FrontendKind, bytes: &[u8]) -> (inspection:
    PacketInspection)
    ensures
        inspection_of(sandbox_id@, frontend, bytes@, inspection),
{
    match inspect_ipv4_packet_inner(sandbox_id.duplicate(), frontend, bytes) {
        Ok(inspection) => inspection,
        Err(error) => PacketInspection {
            event: NormalizedEvent::UnsupportedNetworkEvent(
                UnsupportedNetworkEvent {
                    sandbox_id,
                    frontend,
                    reason: error.reason(),
                    detail: error,
                },
            ),
            synthetic_reply: None,
            udp_payload: None,
        },
    }
}

// ---------------------------------------------------------------------------
// Laws of the synthesized packets.

/// An echo reply goes back to the requester: its addresses are the
/// request's swapped, its type is echo reply (0), its length is the
/// request's, and both its IPv4 header checksum and its ICMP checksum verify.
pub proof fn lemma_echo_reply_is_valid(b: Seq<u8>)
    requires
        inspect_error(b) is None,
        b[9] == 1,
    ensures
        echo_reply_spec(b).len() == total_length(b),
        echo_reply_spec(b).subrange(12, 16) == b.subrange(16, 20),
        echo_reply_spec(b).subrange(16, 20) == b.subrange(12, 16),
        echo_reply_spec(b)[header_len(b)] == 0,
        checksum_spec(echo_reply_spec(b).subrange(0, header_len(b))) == 0,
        checksum_spec(echo_reply_spec(b).subrange(header_len(b), total_length(b))) == 0,
{
    let ihl = header_len(b);
    let total = total_length(b);
    let base = b.subrange(0, total);
    let a = splice(base, 12, b.subrange(16, 20));
    lemma_splice(base, 12, b.subrange(16, 20));
    let a2 = splice(a, 16, b.subrange(12, 16));
    lemma_splice(a, 16, b.subrange(12, 16));
    let r0 = a2.update(8, 64u8).update(ihl, 0u8);
    let w1 = with_checksum(r0.subrange(ihl, total), 2);
    lemma_with_checksum_verifies(r0.subrange(ihl, total), 2);
    let r1 = splice(r0, ihl, w1);
    lemma_splice(r0, ihl, w1);
    let w2 = with_checksum(r1.subrange(0, ihl), 10);
    lemma_with_checksum_verifies(r1.subrange(0, ihl), 10);
    let r2 = splice(r1, 0, w2);
    lemma_splice(r1, 0, w2);
    assert(r2 == echo_reply_spec(b));
    assert(r2.subrange(0, ihl) =~= w2);
    assert(r2.subrange(ihl, total) =~= r1.subrange(ihl, total));
    assert(r1.subrange(ihl, total) =~= w1);
    assert(w1[0] == r0[ihl]);
    assert(r2[ihl] == w1[0]);
    assert(r2.subrange(12, 16) =~= b.subrange(16, 20)) by {
        assert forall|i: int| 12 <= i < 16 implies r2[i] == b[i + 4] by {
            assert(w2[i] == r1[i]);
            assert(r1[i] == r0[i]);
            assert(a2[i] == a[i]);
            assert(a[i] == b.subrange(16, 20)[i - 12]);
        }
    }
    assert(r2.subrange(16, 20) =~= b.subrange(12, 16)) by {
        assert forall|i: int| 16 <= i < 20 implies r2[i] == b[i - 4] by {
            assert(w2[i] == r1[i]);
            assert(r1[i] == r0[i]);
            assert(a2[i] == b.subrange(12, 16)[i - 16]);
        }
    }
}

/// An ICMP destination-unreachable response goes back to the sender of the
/// original packet, carries type 3 and the requested code, quotes the
/// original header plus up to eight payload bytes, and both of its
/// checksums verify.
pub proof fn lemma_unreachable_is_valid(b: Seq<u8>, code: u8)
    requires
        ipv4_header_error(b) is None,
    ensures
        ({
            let ihl = header_len(b);
            let total = total_length(b);
            let prefix = if ihl + 8 < total { ihl + 8 } else { total };
            let r = unreachable_spec(b, code);
            &&& r.len() == 28 + prefix
            &&& r.subrange(12, 16) == b.subrange(16, 20)
            &&& r.subrange(16, 20) == b.subrange(12, 16)
            &&& r[9] == 1
            &&& r[20] == 3
            &&& r[21] == code
            &&& r.subrange(28, 28 + prefix) == b.subrange(0, prefix)
            &&& checksum_spec(r.subrange(0, 20)) == 0
            &&& checksum_spec(r.subrange(20, 28 + prefix)) == 0
        }),
{
    let ihl = header_len(b);
    let total = total_length(b);
    let prefix = if ihl + 8 < total { ihl + 8 } else { total };
    let n = 28 + prefix;
    let p0 = Seq::new(n as nat, |i: int| 0u8).update(0, 0x45u8).update(2, (n / 256) as u8).update(3, (n % 256) as u8).update(8, 64u8).update(9, 1u8);
    let q1 = splice(p0, 12, b.subrange(16, 20));
    lemma_splice(p0, 12, b.subrange(16, 20));
    let q2 = splice(q1, 16, b.subrange(12, 16));
    lemma_splice(q1, 16, b.subrange(12, 16));
    let p1 = q2.update(20, 3u8).update(21, code);
    let p2 = splice(p1, 28, b.subrange(0, prefix));
    lemma_splice(p1, 28, b.subrange(0, prefix));
    let w1 = with_checksum(p2.subrange(20, n), 2);
    lemma_with_checksum_verifies(p2.subrange(20, n), 2);
    let p3 = splice(p2, 20, w1);
    lemma_splice(p2, 20, w1);
    let w2 = with_checksum(p3.subrange(0, 20), 10);
    lemma_with_checksum_verifies(p3.subrange(0, 20), 10);
    let r = splice(p3, 0, w2);
    lemma_splice(p3, 0, w2);
    assert(r == unreachable_spec(b, code));
    assert(r.subrange(0, 20) =~= w2);
    assert(r.subrange(20, n) =~= w1);
    assert(r.subrange(12, 16) =~= b.subrange(16, 20)) by {
        assert forall|i: int| 12 <= i < 16 implies r[i] == b[i + 4] by {
            assert(w2[i] == p3[i]);
            assert(p3[i] == p2[i]);
            assert(p2[i] == p1[i]);
            assert(q2[i] == q1[i]);
            assert(q1[i] == b.subrange(16, 20)[i - 12]);
        }
    }
    assert(r.subrange(16, 20) =~= b.subrange(12, 16)) by {
        assert forall|i: int| 16 <= i < 20 implies r[i] == b[i - 4] by {
            assert(w2[i] == p3[i]);
            assert(p3[i] == p2[i]);
            assert(p2[i] == p1[i]);
            assert(q2[i] == b.subrange(12, 16)[i - 16]);
        }
    }
    assert(r[9] == w2[9] && w2[9] == p3[9] && p3[9] == p2[9] && p2[9] == p1[9]);
    assert(q2[9] == q1[9] && q1[9] == p0[9]);
    assert(r[20] == w1[0] && w1[0] == p2[20] && p2[20] == p1[20]);
    assert(r[21] == w1[1] && w1[1] == p2[21] && p2[21] == p1[21]);
    assert(r.subrange(28, n) =~= b.subrange(0, prefix)) by {
        assert forall|i: int| 28 <= i < n implies r[i] == b[i - 28] by {
            assert(r[i] == w1[i - 20]);
            assert(w1[i - 20] == p2[i]);
            assert(p2[i] == b.subrange(0, prefix)[i - 28]);
        }
    }
}

} // verus!
