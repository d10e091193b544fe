//! Userspace IP stack adapter: the in-memory raw-IP device the stack reads
//! from and writes to, the evidence one stack poll leaves, and the UDP
//! datagram exchange between a sandbox packet and its reply packet.

use crate::checksum::{checksum_spec, lemma_with_checksum_verifies, with_checksum};
use crate::packet::{be16, copy_range, fill_checksum, splice};
use std::collections::VecDeque;
use vstd::prelude::*;

verus! {

// ---------------------------------------------------------------------------
// In-memory device.

/// Raw-IP device backed by queues: packets waiting for the stack, and every
/// packet the stack emitted.
pub struct InMemoryIpDevice {
    inbound: VecDeque<Vec<u8>>,
    outbound: Vec<Vec<u8>>,
    mtu: usize,
}

/// Contents of each packet of `packets`.
pub open spec fn packet_views(packets: Seq<Vec<u8>>) -> Seq<Seq<u8>> {
    packets.map_values(|p: Vec<u8>| p@)
}


/// `index`, or `len` when `index` is past it.
pub open spec fn clamp_index(index: usize, len: nat) -> int {
    if index < len {
        index as int
    } else {
        len as int
    }
}

/// Total length of the byte sequences.
pub open spec fn total_len(parts: Seq<Seq<u8>>) -> int
    decreases parts.len(),
{
    if parts.len() == 0 {
        0
    } else {
        total_len(parts.drop_last()) + parts.last().len()
    }
}

proof fn lemma_total_len_push(parts: Seq<Seq<u8>>, part: Seq<u8>)
    ensures
        total_len(parts.push(part)) == total_len(parts) + part.len(),
        total_len(parts) >= 0,
    decreases parts.len(),
{
    assert(parts.push(part).drop_last() =~= parts);
    if parts.len() > 0 {
        lemma_total_len_push(parts.drop_last(), parts.last());
        assert(parts.drop_last().push(parts.last()) =~= parts);
    }
}

/// A copy of every packet of `packets`, in order.
pub(crate) fn copy_packets(packets: &Vec<Vec<u8>>) -> (out: Vec<Vec<u8>>)
    ensures
        packet_views(out@) == packet_views(packets@),
{
    let mut out: Vec<Vec<u8>> = Vec::with_capacity(packets.len());
    let mut i: usize = 0;
    while i < packets.len()
        invariant
            i <= packets@.len(),
            out@.len() == i,
            forall|j: int| 0 <= j < i ==> #[trigger] out@[j]@ == packets@[j]@,
        decreases packets@.len() - i,
    {
        let packet = copy_range(packets[i].as_slice(), 0, packets[i].len());
        out.push(packet);
        i = i + 1;
    }
    assert(packet_views(out@) =~= packet_views(packets@));
    out
}

impl InMemoryIpDevice {
    pub closed spec fn inbound_spec(&self) -> Seq<Vec<u8>> {
        self.inbound@
    }

    pub closed spec fn outbound_spec(&self) -> Seq<Vec<u8>> {
        self.outbound@
    }

    pub closed spec fn mtu_spec(&self) -> usize {
        self.mtu
    }

    pub fn new(mtu: usize) -> (device: InMemoryIpDevice)
        ensures
            device.inbound_spec() == Seq::<Vec<u8>>::empty(),
            device.outbound_spec() == Seq::<Vec<u8>>::empty(),
            device.mtu_spec() == mtu,
    {
        InMemoryIpDevice { inbound: VecDeque::new(), outbound: Vec::new(), mtu }
    }

    /// Queues a packet for the stack to read.
    pub fn push_inbound(&mut self, packet: Vec<u8>)
        ensures
            final(self).inbound_spec() == old(self).inbound_spec().push(packet),
            final(self).outbound_spec() == old(self).outbound_spec(),
            final(self).mtu_spec() == old(self).mtu_spec(),
    {
        self.inbound.push_back(packet);
    }

    /// Every packet the stack emitted so far, oldest first; the device keeps them.
    pub fn outbound_packets(&self) -> (packets: Vec<Vec<u8>>)
        ensures
            packet_views(packets@) == packet_views(self.outbound_spec()),
    {
        copy_packets(&self.outbound)
    }

    pub fn mtu(&self) -> (mtu: usize)
        ensures
            mtu == self.mtu_spec(),
    {
        self.mtu
    }

    /// Number of packets the stack emitted so far.
    pub fn outbound_len(&self) -> (n: usize)
        ensures
            n == self.outbound_spec().len(),
    {
        self.outbound.len()
    }

    /// The packets the stack emitted from position `index` on, oldest first;
    /// none when `index` is past the end.
    pub fn outbound_packets_since(&self, index: usize) -> (packets: Vec<Vec<u8>>)
        ensures
            packet_views(packets@) == packet_views(self.outbound_spec()).skip(
                clamp_index(index, self.outbound_spec().len()),
            ),
    {
        let n = self.outbound.len();
        let mut out: Vec<Vec<u8>> = Vec::new();
        let mut i: usize = if index < n {
            index
        } else {
            n
        };
        let start = i;
        while i < n
            invariant
                n == self.outbound@.len(),
                start <= i <= n,
                start == clamp_index(index, n as nat),
                out@.len() == i - start,
                forall|j: int| 0 <= j < out@.len() ==> #[trigger] out@[j]@ == self.outbound@[start + j]@,
            decreases n - i,
        {
            out.push(copy_range(self.outbound[i].as_slice(), 0, self.outbound[i].len()));
            i = i + 1;
        }
        assert(packet_views(out@) =~= packet_views(self.outbound@).skip(start as int));
        out
    }

    /// What a poll that found `before` emitted packets and left these
    /// behind did: the packets emitted since, their total length (at most
    /// `usize::MAX`), the poll's result and when to poll next.
    pub fn poll_evidence_since(
        &self,
        before: usize,
        poll_result: &'static str,
        next_poll_delay_ms: Option<u64>,
    ) -> (evidence: StackPollEvidence)
        ensures
            evidence.poll_result == poll_result,
            evidence.next_poll_delay_ms == next_poll_delay_ms,
            evidence.packets_emitted == self.outbound_spec().len() - clamp_index(
                before,
                self.outbound_spec().len(),
            ),
            evidence.outbound_bytes == (if total_len(
                packet_views(self.outbound_spec()).skip(
                    clamp_index(before, self.outbound_spec().len()),
                ),
            ) <= usize::MAX {
                total_len(
                    packet_views(self.outbound_spec()).skip(
                        clamp_index(before, self.outbound_spec().len()),
                    ),
                )
            } else {
                usize::MAX as int
            }),
    {
        let n = self.outbound.len();
        let start: usize = if before < n {
            before
        } else {
            n
        };
        let ghost views = packet_views(self.outbound@);
        let mut bytes: usize = 0;
        let mut saturated = false;
        let mut i: usize = start;
        while i < n
            invariant
                n == self.outbound@.len(),
                views == packet_views(self.outbound@),
                start <= i <= n,
                start == clamp_index(before, n as nat),
                saturated ==> bytes == usize::MAX && total_len(views.subrange(start as int, i as int)) > usize::MAX,
                !saturated ==> bytes == total_len(views.subrange(start as int, i as int)),
            decreases n - i,
        {
            let len = self.outbound[i].len();
            proof {
                lemma_total_len_push(views.subrange(start as int, i as int), views[i as int]);
                assert(views.subrange(start as int, i + 1) =~= views.subrange(start as int, i as int).push(views[i as int]));
            }
            if !saturated {
                if len > usize::MAX - bytes {
                    bytes = usize::MAX;
                    saturated = true;
                } else {
                    bytes = bytes + len;
                }
            }
            i = i + 1;
        }
        assert(views.subrange(start as int, n as int) =~= views.skip(start as int));
        StackPollEvidence {
            poll_result,
            packets_emitted: n - start,
            outbound_bytes: bytes,
            next_poll_delay_ms,
        }
    }

    /// Hands the next queued packet to the stack, with a token to reply
    /// through; `None` when nothing is queued.
    pub fn receive(&mut self) -> (tokens: Option<(InMemoryRxToken, InMemoryTxToken)>)
        ensures
            old(self).inbound_spec().len() == 0 ==> tokens is None && final(self).inbound_spec()
                == old(self).inbound_spec(),
            old(self).inbound_spec().len() > 0 ==> (tokens matches Some((rx, tx)) && rx.packet
                == old(self).inbound_spec()[0] && tx.mtu == old(self).mtu_spec()
                && final(self).inbound_spec() == old(self).inbound_spec().drop_first()),
            final(self).outbound_spec() == old(self).outbound_spec(),
            final(self).mtu_spec() == old(self).mtu_spec(),
    {
        match self.inbound.pop_front() {
            Some(packet) => Some((InMemoryRxToken { packet }, InMemoryTxToken { mtu: self.mtu })),
            None => None,
        }
    }

    /// A token through which the stack may emit one packet; always available.
    pub fn transmit(&self) -> (token: InMemoryTxToken)
        ensures
            token.mtu == self.mtu_spec(),
    {
        InMemoryTxToken { mtu: self.mtu }
    }
}

/// A packet handed to the stack.
pub struct InMemoryRxToken {
    pub packet: Vec<u8>,
}

impl InMemoryRxToken {
    /// The packet's bytes.
    pub fn consume(self) -> (packet: Vec<u8>)
        ensures
            packet == self.packet,
    {
        self.packet
    }
}

/// Permission to emit one packet of at most `mtu` bytes.
pub struct InMemoryTxToken {
    pub mtu: usize,
}

impl InMemoryTxToken {
    /// Records `packet` as emitted by the stack; the stack never emits more
    /// than the MTU.
    pub fn consume(self, device: &mut InMemoryIpDevice, packet: Vec<u8>)
        requires
            packet@.len() <= self.mtu,
        ensures
            final(device).outbound_spec() == old(device).outbound_spec().push(packet),
            final(device).inbound_spec() == old(device).inbound_spec(),
            final(device).mtu_spec() == old(device).mtu_spec(),
    {
        device.outbound.push(packet);
    }
}

// ---------------------------------------------------------------------------
// Poll evidence.

/// What one stack poll did.
#[derive(Clone, Copy, Debug, PartialEq, Eq)]
pub struct StackPollEvidence {
    pub poll_result: &'static str,
    pub packets_emitted: usize,
    pub outbound_bytes: usize,
    pub next_poll_delay_ms: Option<u64>,
}

impl StackPollEvidence {
    /// Evidence of a poll that did not run.
    pub fn none() -> (evidence: StackPollEvidence)
        ensures
            evidence.poll_result@ == "none"@,
            evidence.packets_emitted == 0,
            evidence.outbound_bytes == 0,
            evidence.next_poll_delay_ms is None,
    {
        StackPollEvidence {
            poll_result: "none",
            packets_emitted: 0,
            outbound_bytes: 0,
            next_poll_delay_ms: None,
        }
    }

    /// The stack wants to be polled again right away.
    pub fn ready_now(&self) -> (ready: bool)
        ensures
            ready == (self.next_poll_delay_ms == Some(0u64)),
    {
        match self.next_poll_delay_ms {
            Some(delay) => delay == 0,
            None => false,
        }
    }

    /// The positive delay after which the stack wants to be polled again.
    pub fn next_ready_delay_ms(&self) -> (delay: Option<u64>)
        ensures
            delay == (match self.next_poll_delay_ms {
                Some(d) => if d > 0 {
                    Some(d)
                } else {
                    None
                },
                None => None,
            }),
    {
        match self.next_poll_delay_ms {
            Some(d) => if d > 0 {
                Some(d)
            } else {
                None
            },
            None => None,
        }
    }
}

// ---------------------------------------------------------------------------
// UDP datagram exchange.

/// Failure of a host UDP exchange.
#[derive(Clone, Copy, Debug, PartialEq, Eq, Structural)]
pub enum UdpExchangeError {
    SendFailed,
    ReceiveFailed,
}

/// Audit detail naming `error`.
pub fn udp_exchange_error_detail(error: &UdpExchangeError) -> (detail: &'static str)
    ensures
        detail@ == (match *error {
            UdpExchangeError::SendFailed => "send_failed"@,
            UdpExchangeError::ReceiveFailed => "receive_failed"@,
        }),
{
    match error {
        UdpExchangeError::SendFailed => "send_failed",
        UdpExchangeError::ReceiveFailed => "receive_failed",
    }
}

/// Addresses and ports of the reply to a sandbox UDP datagram: the reply
/// goes from the datagram's destination back to its source.
#[derive(Clone, Copy, Debug, PartialEq, Eq)]
pub struct UdpResponseTemplate {
    pub source: [u8; 4],
    pub destination: [u8; 4],
    pub source_port: u16,
    pub destination_port: u16,
}

/// IPv4 header length of `p`, from its IHL field.
pub open spec fn udp_ihl(p: Seq<u8>) -> int {
    (p[0] % 16) * 4
}

/// The UDP length field of `p`.
pub open spec fn udp_len_field(p: Seq<u8>) -> int {
    be16(p[udp_ihl(p) + 4], p[udp_ihl(p) + 5])
}

/// Whether `p` is an IPv4 UDP datagram whose IHL, total length, and UDP
/// length are consistent with each other and with the buffer.
pub open spec fn udp_datagram_ok(p: Seq<u8>) -> bool {
    &&& p.len() >= 28
    &&& p[0] / 16 == 4
    &&& p[9] == 17
    &&& udp_ihl(p) >= 20
    &&& p.len() >= udp_ihl(p) + 8
    &&& be16(p[2], p[3]) <= p.len()
    &&& udp_len_field(p) >= 8
    &&& udp_ihl(p) + udp_len_field(p) <= be16(p[2], p[3])
}

/// The template of the reply to datagram `p`.
pub open spec fn reply_template_of(t: UdpResponseTemplate, p: Seq<u8>) -> bool {
    &&& t.source@ == p.subrange(16, 20)
    &&& t.destination@ == p.subrange(12, 16)
    &&& t.source_port == be16(p[udp_ihl(p) + 2], p[udp_ihl(p) + 3])
    &&& t.destination_port == be16(p[udp_ihl(p)], p[udp_ihl(p) + 1])
}

/// Whether a datagram yields a payload and a reply template, and which
/// ones, does not depend on the IPv4 identification, flags and fragment
/// bytes (4 to 7): setting Don't Fragment, as Linux does by default,
/// changes nothing.
pub proof fn lemma_udp_template_ignores_flags(p: Seq<u8>, q: Seq<u8>, t: UdpResponseTemplate)
    requires
        p.len() == q.len(),
        forall|j: int| 0 <= j < p.len() && !(4 <= j < 8) ==> p[j] == q[j],
    ensures
        udp_datagram_ok(p) == udp_datagram_ok(q),
        udp_datagram_ok(p) ==> udp_ihl(p) == udp_ihl(q) && udp_len_field(p) == udp_len_field(q)
            && p.subrange(udp_ihl(p) + 8, udp_ihl(p) + udp_len_field(p)) == q.subrange(
            udp_ihl(q) + 8,
            udp_ihl(q) + udp_len_field(q),
        ),
        udp_datagram_ok(p) ==> (reply_template_of(t, p) <==> reply_template_of(t, q)),
{
    if p.len() >= 28 {
        assert(p[0] == q[0] && p[2] == q[2] && p[3] == q[3] && p[9] == q[9]);
        let ihl = udp_ihl(p);
        assert(udp_ihl(q) == ihl);
        if p.len() >= ihl + 8 && ihl >= 20 {
            assert(p[ihl] == q[ihl] && p[ihl + 1] == q[ihl + 1]);
            assert(p[ihl + 2] == q[ihl + 2] && p[ihl + 3] == q[ihl + 3]);
            assert(p[ihl + 4] == q[ihl + 4] && p[ihl + 5] == q[ihl + 5]);
            assert(p.subrange(12, 16) =~= q.subrange(12, 16));
            assert(p.subrange(16, 20) =~= q.subrange(16, 20));
            if udp_datagram_ok(p) {
                assert(p.subrange(ihl + 8, ihl + udp_len_field(p)) =~= q.subrange(
                    ihl + 8,
                    ihl + udp_len_field(q),
                ));
            }
        }
    }
}

fn read_be16(p: &[u8], at: usize) -> (value: u16)
    requires
        at + 1 < p@.len(),
    ensures
        value == be16(p@[at as int], p@[at + 1]),
{
    (p[at] as u16) * 256 + (p[at + 1] as u16)
}

/// The payload of an IPv4 UDP datagram and the template of its reply; `None`
/// for anything that is not a consistent IPv4 UDP datagram.
pub fn udp_payload_and_response_template(packet: &[u8]) -> (result: Option<(&[u8], UdpResponseTemplate)>)
    ensures
        result is Some <==> udp_datagram_ok(packet@),
        result matches Some((payload, template)) ==> payload@ == packet@.subrange(
            udp_ihl(packet@) + 8,
            udp_ihl(packet@) + udp_len_field(packet@),
        ) && reply_template_of(template, packet@),
{
    if packet.len() < 28 || packet[0] / 16 != 4 || packet[9] != 17 {
        return None;
    }
    let ihl = ((packet[0] % 16) as usize) * 4;
    if ihl < 20 || packet.len() < ihl + 8 {
        return None;
    }
    let total_len = read_be16(packet, 2) as usize;
    let udp_len = read_be16(packet, ihl + 4) as usize;
    if total_len > packet.len() || udp_len < 8 || ihl + udp_len > total_len {
        return None;
    }
    let payload = vstd::slice::slice_subrange(packet, ihl + 8, ihl + udp_len);
    let template = UdpResponseTemplate {
        source: [packet[16], packet[17], packet[18], packet[19]],
        destination: [packet[12], packet[13], packet[14], packet[15]],
        source_port: read_be16(packet, ihl + 2),
        destination_port: read_be16(packet, ihl + 0),
    };
    assert(template.source@ =~= packet@.subrange(16, 20));
    assert(template.destination@ =~= packet@.subrange(12, 16));
    Some((payload, template))
}

/// Big-endian bytes of `v`.
pub open spec fn be_bytes(v: int) -> Seq<u8> {
    seq![(v / 256) as u8, (v % 256) as u8]
}

/// The reply datagram carrying `payload` for `t`: an IPv4 header (version 4,
/// IHL 5, TTL 64, protocol UDP, no options) with its checksum filled in, a
/// UDP header with a zero (absent) checksum, and the payload.
pub open spec fn udp_reply_spec(t: UdpResponseTemplate, payload: Seq<u8>) -> Seq<u8> {
    let udp_len: int = 8 + payload.len() as int;
    let total: int = 20 + udp_len;
    let header = seq![0x45u8, 0u8] + be_bytes(total) + seq![0u8, 0u8, 0u8, 0u8, 64u8, 17u8, 0u8, 0u8]
        + t.source@ + t.destination@;
    let udp = be_bytes(t.source_port as int) + be_bytes(t.destination_port as int) + be_bytes(
        udp_len,
    ) + seq![0u8, 0u8];
    with_checksum(header, 10) + udp + payload
}

fn push_be16(out: &mut Vec<u8>, value: usize)
    requires
        value <= 0xffff,
    ensures
        final(out)@ == old(out)@ + be_bytes(value as int),
{
    out.push((value / 256) as u8);
    out.push((value % 256) as u8);
    assert(final(out)@ =~= old(out)@ + be_bytes(value as int));
}

fn push_all(out: &mut Vec<u8>, bytes: &[u8])
    ensures
        final(out)@ == old(out)@ + bytes@,
{
    let ghost start = out@;
    let mut i: usize = 0;
    while i < bytes.len()
        invariant
            i <= bytes@.len(),
            out@ == start + bytes@.subrange(0, i as int),
        decreases bytes@.len() - i,
    {
        out.push(bytes[i]);
        i = i + 1;
        assert(out@ =~= start + bytes@.subrange(0, i as int));
    }
    assert(bytes@.subrange(0, bytes@.len() as int) =~= bytes@);
}

/// The reply datagram carrying `payload` for `template`; `None` when it
/// would not fit the 16-bit IPv4 total length.
pub fn response_packet(template: &UdpResponseTemplate, payload: &[u8]) -> (result: Option<Vec<u8>>)
    ensures
        result is Some <==> 28 + payload@.len() <= 0xffff,
        result matches Some(packet) ==> packet@ == udp_reply_spec(*template, payload@),
{
    if payload.len() > 0xffff - 28 {
        return None;
    }
    let udp_len = 8 + payload.len();
    let total_len = 20 + udp_len;
    let mut packet: Vec<u8> = Vec::with_capacity(total_len);
    packet.push(0x45);
    packet.push(0);
    push_be16(&mut packet, total_len);
    packet.push(0);
    packet.push(0);
    packet.push(0);
    packet.push(0);
    packet.push(64);
    packet.push(17);
    packet.push(0);
    packet.push(0);
    push_all(&mut packet, &template.source);
    push_all(&mut packet, &template.destination);
    let ghost header = packet@;
    assert(header =~= seq![0x45u8, 0u8] + be_bytes(total_len as int) + seq![0u8, 0u8, 0u8, 0u8, 64u8, 17u8, 0u8, 0u8]
        + template.source@ + template.destination@);
    push_be16(&mut packet, template.source_port as usize);
    push_be16(&mut packet, template.destination_port as usize);
    push_be16(&mut packet, udp_len);
    packet.push(0);
    packet.push(0);
    push_all(&mut packet, payload);
    let ghost unfilled = packet@;
    assert(unfilled.subrange(0, 20) =~= header);
    fill_checksum(&mut packet, 0, 20, 10);
    proof {
        lemma_with_checksum_verifies(header, 10);
        let udp = be_bytes(template.source_port as int) + be_bytes(template.destination_port as int)
            + be_bytes(udp_len as int) + seq![0u8, 0u8];
        assert(unfilled =~= header + udp + payload@);
        assert(packet@ =~= with_checksum(header, 10) + udp + payload@);
    }
    Some(packet)
}

/// The IPv4 header of every reply datagram verifies: its Internet checksum
/// is zero.
pub proof fn lemma_udp_reply_header_verifies(t: UdpResponseTemplate, payload: Seq<u8>)
    ensures
        checksum_spec(udp_reply_spec(t, payload).subrange(0, 20)) == 0,
        udp_reply_spec(t, payload).len() == 28 + payload.len(),
{
    let udp_len: int = 8 + payload.len() as int;
    let total: int = 20 + udp_len;
    let header = seq![0x45u8, 0u8] + be_bytes(total) + seq![0u8, 0u8, 0u8, 0u8, 64u8, 17u8, 0u8, 0u8]
        + t.source@ + t.destination@;
    lemma_with_checksum_verifies(header, 10);
    assert(udp_reply_spec(t, payload).subrange(0, 20) =~= with_checksum(header, 10));
}

/// The template of the reply to a datagram whose template is `t`: source
/// and destination, and their ports, trade places.
pub open spec fn mirrored(t: UdpResponseTemplate) -> UdpResponseTemplate {
    UdpResponseTemplate {
        source: t.destination,
        destination: t.source,
        source_port: t.destination_port,
        destination_port: t.source_port,
    }
}

proof fn lemma_be_bytes_round_trip(v: int)
    requires
        0 <= v <= 0xffff,
    ensures
        be16(be_bytes(v)[0], be_bytes(v)[1]) == v,
{
    assert(0 <= v / 256 < 256) by (nonlinear_arith)
        requires
            0 <= v <= 0xffff,
    ;
    assert((v / 256) * 256 + v % 256 == v) by (nonlinear_arith);
}

/// A reply datagram parses back as a consistent UDP datagram that carries
/// the same payload and whose own reply template is the mirror of the one it
/// was built from.
pub proof fn lemma_udp_reply_parses_back(t: UdpResponseTemplate, payload: Seq<u8>)
    requires
        28 + payload.len() <= 0xffff,
    ensures
        udp_datagram_ok(udp_reply_spec(t, payload)),
        udp_ihl(udp_reply_spec(t, payload)) == 20,
        udp_reply_spec(t, payload).subrange(
            28,
            20 + udp_len_field(udp_reply_spec(t, payload)),
        ) == payload,
        reply_template_of(mirrored(t), udp_reply_spec(t, payload)),
{
    let udp_len: int = 8 + payload.len() as int;
    let total: int = 20 + udp_len;
    let header = seq![0x45u8, 0u8] + be_bytes(total) + seq![0u8, 0u8, 0u8, 0u8, 64u8, 17u8, 0u8, 0u8]
        + t.source@ + t.destination@;
    let udp = be_bytes(t.source_port as int) + be_bytes(t.destination_port as int) + be_bytes(
        udp_len,
    ) + seq![0u8, 0u8];
    let r = udp_reply_spec(t, payload);
    let h = with_checksum(header, 10);
    assert(header.len() == 20);
    assert forall|i: int| 0 <= i < 20 && i != 10 && i != 11 implies h[i] == header[i] by {}
    assert(r == h + udp + payload);
    assert(r[0] == 0x45u8 && r[9] == 17u8);
    assert(r[2] == be_bytes(total)[0] && r[3] == be_bytes(total)[1]);
    lemma_be_bytes_round_trip(total);
    lemma_be_bytes_round_trip(udp_len);
    lemma_be_bytes_round_trip(t.source_port as int);
    lemma_be_bytes_round_trip(t.destination_port as int);
    assert(r[24] == be_bytes(udp_len)[0] && r[25] == be_bytes(udp_len)[1]);
    assert(r[20] == be_bytes(t.source_port as int)[0] && r[21] == be_bytes(t.source_port as int)[1]);
    assert(r[22] == be_bytes(t.destination_port as int)[0] && r[23] == be_bytes(
        t.destination_port as int,
    )[1]);
    assert(udp_ihl(r) == 20);
    assert(r.subrange(16, 20) =~= t.destination@);
    assert(r.subrange(12, 16) =~= t.source@);
    assert(r.subrange(28, 20 + udp_len) =~= payload);
}

} // verus!
