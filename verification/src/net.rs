//! Stack-adapter boundary types: opaque outbound packets, stack errors, and
//! flow identities.

use crate::model::{FrontendKind, SandboxId, SocketAddress};
use crate::text::{decimal, push_decimal, push_text};
use vstd::prelude::*;

verus! {

#[derive(Clone, Debug, PartialEq, Eq)]
pub enum StackError {
    EmptyOutboundPacket,
    MalformedPacket,
    Adapter(String),
}

impl StackError {
    /// A one-line description of the error.
    pub fn describe(&self) -> (text: String)
        ensures
            text@ == (match self {
                StackError::EmptyOutboundPacket => "outbound packet must not be empty"@,
                StackError::MalformedPacket => "malformed packet"@,
                StackError::Adapter(reason) => "stack adapter error: "@ + reason@,
            }),
    {
        let mut text = String::new();
        match self {
            StackError::EmptyOutboundPacket => push_text(&mut text, "outbound packet must not be empty"),
            StackError::MalformedPacket => push_text(&mut text, "malformed packet"),
            StackError::Adapter(reason) => {
                push_text(&mut text, "stack adapter error: ");
                push_text(&mut text, reason.as_str());
            },
        }
        text
    }
}

/// Opaque outbound IP packet to write back to the TUN device; never empty.
#[derive(Debug, PartialEq, Eq)]
pub struct OutboundIpPacket {
    bytes: Vec<u8>,
}

impl View for OutboundIpPacket {
    type V = Seq<u8>;

    closed spec fn view(&self) -> Seq<u8> {
        self.bytes@
    }
}

impl Clone for OutboundIpPacket {
    fn clone(&self) -> (copy: OutboundIpPacket)
        ensures
            copy@ == self@,
    {
        proof {
            use_type_invariant(self);
        }
        let bytes = self.bytes.clone();
        proof {
            assert(bytes@ =~= self.bytes@);
        }
        OutboundIpPacket { bytes }
    }
}

impl OutboundIpPacket {
    /// An outbound packet is never empty.
    #[verifier::type_invariant]
    spec fn nonempty(self) -> bool {
        self.bytes@.len() > 0
    }

    /// Wraps `bytes`; an empty buffer is rejected.
    pub fn new(bytes: Vec<u8>) -> (result: Result<OutboundIpPacket, StackError>)
        ensures
            result is Ok <==> bytes@.len() > 0,
            result matches Ok(packet) ==> packet@ == bytes@,
            result matches Err(e) ==> e == StackError::EmptyOutboundPacket,
    {
        if bytes.len() == 0 {
            return Err(StackError::EmptyOutboundPacket);
        }
        Ok(OutboundIpPacket { bytes })
    }

    pub fn bytes(&self) -> (bytes: &[u8])
        ensures
            bytes@ == self@,
            bytes@.len() > 0,
    {
        proof {
            use_type_invariant(self);
        }
        self.bytes.as_slice()
    }
}

#[derive(Clone, Copy, Debug, PartialEq, Eq, Hash, Structural)]
pub enum FlowProtocol {
    Tcp,
    Udp,
}

/// Identity of a transport flow as seen by a stack adapter.
#[derive(Clone, Copy, Debug, PartialEq, Eq, Hash, Structural)]
pub struct FlowKey {
    pub source: SocketAddress,
    pub destination: SocketAddress,
    pub protocol: FlowProtocol,
}

/// Bytes moved in each direction of a flow.
#[derive(Clone, Copy, Debug, Default, PartialEq, Eq, Hash, Structural)]
pub struct ByteCounts {
    pub ingress: u64,
    pub egress: u64,
}

impl ByteCounts {
    pub fn new(ingress: u64, egress: u64) -> (counts: ByteCounts)
        ensures
            counts == (ByteCounts { ingress, egress }),
    {
        ByteCounts { ingress, egress }
    }
}

#[derive(Clone, Copy, Debug, PartialEq, Eq, Hash, Structural)]
pub enum FlowLimitError {
    ZeroLimit,
    LimitReached { max_flows: usize },
}

impl FlowLimitError {
    /// A one-line description of the error.
    pub fn describe(&self) -> (text: String)
        ensures
            text@ == (match self {
                FlowLimitError::ZeroLimit => "flow limit must be greater than zero"@,
                FlowLimitError::LimitReached { max_flows } => "flow limit "@ + decimal(
                    *max_flows as nat,
                ) + " reached"@,
            }),
    {
        let mut text = String::new();
        match self {
            FlowLimitError::ZeroLimit => push_text(&mut text, "flow limit must be greater than zero"),
            FlowLimitError::LimitReached { max_flows } => {
                push_text(&mut text, "flow limit ");
                push_decimal(&mut text, *max_flows as u64);
                push_text(&mut text, " reached");
            },
        }
        text
    }
}

/// A sandbox TCP connection the stack accepted, to be judged by policy.
#[derive(Clone, Debug, PartialEq, Eq)]
pub struct StackTcpConnect {
    pub sandbox_id: SandboxId,
    pub frontend: FrontendKind,
    pub source: SocketAddress,
    pub destination: SocketAddress,
}

/// A stack flow that ended, with the bytes it carried and how long it lived.
#[derive(Clone, Debug, PartialEq, Eq)]
pub struct StackFlowClosed {
    pub sandbox_id: SandboxId,
    pub frontend: FrontendKind,
    pub key: FlowKey,
    pub byte_counts: ByteCounts,
    pub duration_millis: u64,
}

/// Event a stack adapter emits after handling packets.
#[derive(Clone, Debug, PartialEq, Eq)]
pub enum StackEvent {
    ConnectAttempt(StackTcpConnect),
    TcpData(StackTcpData),
    FlowClosed(StackFlowClosed),
}

/// TCP stream bytes a stack adapter received from a sandbox flow.
#[derive(Clone, Debug, PartialEq, Eq)]
pub struct StackTcpData {
    pub sandbox_id: SandboxId,
    pub frontend: FrontendKind,
    pub source: SocketAddress,
    pub destination: SocketAddress,
    pub bytes: Vec<u8>,
}

/// TCP stream bytes to inject into an adapter-managed sandbox flow.
#[derive(Clone, Debug, PartialEq, Eq)]
pub struct StackTcpWrite {
    pub sandbox_id: SandboxId,
    pub frontend: FrontendKind,
    pub source: SocketAddress,
    pub destination: SocketAddress,
    pub bytes: Vec<u8>,
}

// ---------------------------------------------------------------------------
// Host egress and TUN device errors.

/// Failure to open host TCP egress for a permit.
#[derive(Debug)]
pub enum HostEgressError {
    MissingPort,
    Resolve(std::io::Error),
    NoResolvedAddress,
    Connect(std::io::Error),
}

/// Whether two host egress errors are the same kind of failure; the
/// operating-system errors they carry are not compared.
pub open spec fn same_host_egress_error(a: &HostEgressError, b: &HostEgressError) -> bool {
    ||| a is MissingPort && b is MissingPort
    ||| a is Resolve && b is Resolve
    ||| a is NoResolvedAddress && b is NoResolvedAddress
    ||| a is Connect && b is Connect
}

impl PartialEq for HostEgressError {
    fn eq(&self, other: &Self) -> (same: bool) {
        match (self, other) {
            (HostEgressError::MissingPort, HostEgressError::MissingPort) => true,
            (HostEgressError::Resolve(_), HostEgressError::Resolve(_)) => true,
            (HostEgressError::NoResolvedAddress, HostEgressError::NoResolvedAddress) => true,
            (HostEgressError::Connect(_), HostEgressError::Connect(_)) => true,
            _ => false,
        }
    }
}

impl Eq for HostEgressError {}

impl vstd::std_specs::cmp::PartialEqSpecImpl for HostEgressError {
    open spec fn obeys_eq_spec() -> bool {
        true
    }

    open spec fn eq_spec(&self, other: &Self) -> bool {
        same_host_egress_error(self, other)
    }
}

/// Failure to put a TUN descriptor into nonblocking mode.
#[derive(Debug)]
pub enum SmolTunError {
    Fcntl(std::io::Error),
}

impl PartialEq for SmolTunError {
    fn eq(&self, other: &Self) -> (same: bool) {
        match (self, other) {
            (SmolTunError::Fcntl(_), SmolTunError::Fcntl(_)) => true,
        }
    }
}

impl Eq for SmolTunError {}

impl vstd::std_specs::cmp::PartialEqSpecImpl for SmolTunError {
    open spec fn obeys_eq_spec() -> bool {
        true
    }

    open spec fn eq_spec(&self, other: &Self) -> bool {
        true
    }
}

/// Failure to start the TUN broker.
#[derive(Debug)]
pub enum AlphaBrokerError {
    Tun(SmolTunError),
    DnsBind(std::io::Error),
    TcpListen,
    UnsupportedBrokerIp,
}

/// A packet read from the TUN device, handed to the stack.
pub struct TunRxToken {
    pub buffer: Vec<u8>,
}

impl TunRxToken {
    /// The packet's bytes.
    pub fn consume(self) -> (buffer: Vec<u8>)
        ensures
            buffer == self.buffer,
    {
        self.buffer
    }
}

// ---------------------------------------------------------------------------
// Listener ports.

/// `s` is strictly increasing: sorted, without repeats.
pub open spec fn strictly_increasing(s: Seq<u16>) -> bool {
    forall|i: int, j: int| 0 <= i < j < s.len() ==> s[i] < s[j]
}

/// The ports the broker listens on: `ports` sorted, each once.
pub fn normalized_listen_ports(ports: &Vec<u16>) -> (normalized: Vec<u16>)
    ensures
        strictly_increasing(normalized@),
        forall|p: u16| normalized@.contains(p) <==> ports@.contains(p),
{
    let mut out: Vec<u16> = Vec::new();
    let mut i: usize = 0;
    while i < ports.len()
        invariant
            i <= ports@.len(),
            strictly_increasing(out@),
            forall|p: u16| out@.contains(p) <==> ports@.subrange(0, i as int).contains(p),
        decreases ports@.len() - i,
    {
        let port = ports[i];
        let ghost before = out@;
        assert(forall|p: u16| before.contains(p) <==> ports@.subrange(0, i as int).contains(p));
        // Position of the first element not below `port`.
        let mut at: usize = 0;
        while at < out.len() && out[at] < port
            invariant
                at <= out@.len(),
                out@ == before,
                forall|k: int| 0 <= k < at ==> out@[k] < port,
            decreases out@.len() - at,
        {
            at = at + 1;
        }
        if at < out.len() && out[at] == port {
            assert(out@.contains(port));
            assert forall|p: u16| out@.contains(p) <==> before.contains(p) || p == port by {}
        } else {
            out.insert(at, port);
            proof {
                assert forall|a: int, b: int| 0 <= a < b < out@.len() implies out@[a] < out@[b] by {
                    if b < at {
                    } else if a > at {
                        assert(out@[a] == before[a - 1] && out@[b] == before[b - 1]);
                    } else if a == at {
                        assert(out@[b] == before[b - 1]);
                        assert(before[at as int] >= port);
                        assert(before[at as int] != port);
                        if b - 1 > at {
                            assert(before[at as int] < before[b - 1]);
                        }
                    } else {
                        assert(a < at);
                        if b == at {
                        } else {
                            assert(out@[b] == before[b - 1]);
                            assert(before[a] < before[b - 1]);
                        }
                    }
                }
                assert forall|p: u16| out@.contains(p) <==> before.contains(p) || p == port by {
                    if out@.contains(p) {
                        let k = choose|k: int| 0 <= k < out@.len() && out@[k] == p;
                        if k < at {
                            assert(before[k] == p);
                        } else if k > at {
                            assert(before[k - 1] == p);
                        }
                    }
                    if before.contains(p) {
                        let k = choose|k: int| 0 <= k < before.len() && before[k] == p;
                        if k < at {
                            assert(out@[k] == p);
                        } else {
                            assert(out@[k + 1] == p);
                        }
                    }
                    if p == port {
                        assert(out@[at as int] == p);
                    }
                }
            }
        }
        assert(forall|p: u16| out@.contains(p) <==> before.contains(p) || p == port);
        proof {
            let prev = ports@.subrange(0, i as int);
            let next = ports@.subrange(0, i + 1);
            assert(next =~= prev.push(port));
            assert forall|p: u16| next.contains(p) <==> prev.contains(p) || p == port by {
                if next.contains(p) {
                    let k = choose|k: int| 0 <= k < next.len() && next[k] == p;
                    if k < prev.len() {
                        assert(prev[k] == p);
                    }
                }
                if prev.contains(p) {
                    let k = choose|k: int| 0 <= k < prev.len() && prev[k] == p;
                    assert(next[k] == p);
                }
                if p == port {
                    assert(next[i as int] == p);
                }
            }
            assert forall|p: u16| out@.contains(p) <==> next.contains(p) by {
                assert(before.contains(p) <==> prev.contains(p));
            }
        }
        i = i + 1;
    }
    assert(ports@.subrange(0, ports@.len() as int) =~= ports@);
    out
}

} // verus!
