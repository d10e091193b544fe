//! The stack-neutral side of the smoltcp adapter: its public configuration
//! and the packet queues between the adapter and the userspace stack.

use crate::model::{FrontendKind, SandboxId};
use crate::model::SocketAddress;
use crate::net::{
    ByteCounts, FlowKey, FlowProtocol, OutboundIpPacket, StackError, StackFlowClosed, StackTcpConnect,
};
use std::collections::VecDeque;
use vstd::prelude::*;

verus! {

pub const CRATE_NAME: &'static str = "foxprox-smoltcp";

/// Default random seed of the stack interface.
pub const DEFAULT_RANDOM_SEED: u64 = 0x6650_584f_4c54;

/// Public, stack-neutral configuration of the smoltcp adapter.
#[derive(Clone, Debug, PartialEq, Eq)]
pub struct SmoltcpAdapterConfig {
    pub sandbox_id: SandboxId,
    pub frontend: FrontendKind,
    pub ipv4_addr: [u8; 4],
    pub ipv4_prefix_len: u8,
    pub mtu: usize,
    pub random_seed: u64,
    pub tcp_listen_ports: Vec<u16>,
    pub accept_any_ip: bool,
}

impl SmoltcpAdapterConfig {
    /// A configuration without listeners; a zero MTU or a prefix longer than
    /// 32 bits is rejected.
    pub fn new(
        sandbox_id: SandboxId,
        frontend: FrontendKind,
        ipv4_addr: [u8; 4],
        ipv4_prefix_len: u8,
        mtu: usize,
    ) -> (result: Result<SmoltcpAdapterConfig, StackError>)
        ensures
            result is Ok <==> mtu > 0 && ipv4_prefix_len <= 32,
            result matches Ok(config) ==> {
                &&& config.sandbox_id@ == sandbox_id@
                &&& config.frontend == frontend
                &&& config.ipv4_addr == ipv4_addr
                &&& config.ipv4_prefix_len == ipv4_prefix_len
                &&& config.mtu == mtu
                &&& config.random_seed == DEFAULT_RANDOM_SEED
                &&& config.tcp_listen_ports@ == Seq::<u16>::empty()
                &&& !config.accept_any_ip
            },
            result matches Err(e) ==> e is Adapter,
    {
        if mtu == 0 {
            return Err(StackError::Adapter("smoltcp MTU must be greater than zero".to_owned()));
        }
        if ipv4_prefix_len > 32 {
            return Err(StackError::Adapter("IPv4 prefix length exceeds 32".to_owned()));
        }
        Ok(SmoltcpAdapterConfig {
            sandbox_id,
            frontend,
            ipv4_addr,
            ipv4_prefix_len,
            mtu,
            random_seed: DEFAULT_RANDOM_SEED,
            tcp_listen_ports: Vec::new(),
            accept_any_ip: false,
        })
    }

    /// Adds a TCP listener on `port`.
    pub fn with_tcp_listener(self, port: u16) -> (config: SmoltcpAdapterConfig)
        ensures
            config.tcp_listen_ports@ == self.tcp_listen_ports@.push(port),
            config.sandbox_id == self.sandbox_id,
            config.frontend == self.frontend,
            config.ipv4_addr == self.ipv4_addr,
            config.ipv4_prefix_len == self.ipv4_prefix_len,
            config.mtu == self.mtu,
            config.random_seed == self.random_seed,
            config.accept_any_ip == self.accept_any_ip,
    {
        let mut config = self;
        config.tcp_listen_ports.push(port);
        config
    }

    /// Accepts traffic to any destination address.
    pub fn with_any_ip(self) -> (config: SmoltcpAdapterConfig)
        ensures
            config.accept_any_ip,
            config.tcp_listen_ports == self.tcp_listen_ports,
            config.sandbox_id == self.sandbox_id,
            config.frontend == self.frontend,
            config.ipv4_addr == self.ipv4_addr,
            config.ipv4_prefix_len == self.ipv4_prefix_len,
            config.mtu == self.mtu,
            config.random_seed == self.random_seed,
    {
        let mut config = self;
        config.accept_any_ip = true;
        config
    }
}

/// Wraps each drained stack packet as an opaque outbound packet; the first
/// empty packet fails the whole batch.
pub fn outbound_packets_from(packets: Vec<Vec<u8>>) -> (result: Result<
    Vec<OutboundIpPacket>,
    StackError,
>)
    ensures
        result is Ok <==> forall|i: int| 0 <= i < packets@.len() ==> #[trigger] packets@[i]@.len() > 0,
        result matches Ok(out) ==> out@.len() == packets@.len() && forall|i: int|
            0 <= i < packets@.len() ==> #[trigger] out@[i]@ == packets@[i]@,
        result matches Err(e) ==> e == StackError::EmptyOutboundPacket,
{
    let ghost original = packets@;
    let mut rest = packets;
    let mut reversed: Vec<Vec<u8>> = Vec::new();
    let n = rest.len();
    while rest.len() > 0
        invariant
            rest@ == original.subrange(0, rest@.len() as int),
            reversed@ == original.subrange(rest@.len() as int, n as int).reverse(),
            n == original.len(),
            original == packets@,
            rest@.len() <= n,
        decreases rest@.len(),
    {
        let ghost m = rest@.len();
        let ghost before = reversed@;
        let packet = rest.pop().unwrap();
        proof {
            assert(rest@ =~= original.subrange(0, m - 1));
        }
        reversed.push(packet);
        proof {
            let t = original.subrange(m - 1, n as int);
            assert forall|k: int| 0 <= k < reversed@.len() implies reversed@[k] == t.reverse()[k] by {
                if k < before.len() {
                    assert(reversed@[k] == before[k]);
                }
            }
            assert(reversed@ =~= t.reverse());
        }
    }
    let mut out: Vec<OutboundIpPacket> = Vec::new();
    while reversed.len() > 0
        invariant
            n == original.len(),
            original == packets@,
            reversed@.len() <= n,
            reversed@ == original.subrange(n - reversed@.len(), n as int).reverse(),
            out@.len() == n - reversed@.len(),
            forall|i: int| 0 <= i < out@.len() ==> #[trigger] out@[i]@ == original[i]@,
            forall|i: int| 0 <= i < out@.len() ==> #[trigger] original[i]@.len() > 0,
        decreases reversed@.len(),
    {
        let ghost j = n - reversed@.len();
        let packet = reversed.pop().unwrap();
        proof {
            assert(reversed@ =~= original.subrange(j + 1, n as int).reverse());
            assert(packet == original[j]);
        }
        match OutboundIpPacket::new(packet) {
            Ok(p) => {
                out.push(p);
            },
            Err(e) => {
                assert(packets@[j]@.len() == 0);
                return Err(e);
            },
        }
    }
    Ok(out)
}

/// Packet queues between the adapter and the stack: packets waiting to be
/// read by the stack, and packets the stack emitted.
pub struct QueuedIpDevice {
    inbound: VecDeque<Vec<u8>>,
    outbound: VecDeque<Vec<u8>>,
    mtu: usize,
}

impl QueuedIpDevice {
    pub closed spec fn inbound_spec(&self) -> Seq<Vec<u8>> {
        self.inbound@
    }

    pub closed spec fn outbound_spec(&self) -> Seq<Vec<u8>> {
        self.outbound@
    }

    pub closed spec fn mtu_spec(&self) -> usize {
        self.mtu
    }

    pub fn new(mtu: usize) -> (device: QueuedIpDevice)
        ensures
            device.inbound_spec() == Seq::<Vec<u8>>::empty(),
            device.outbound_spec() == Seq::<Vec<u8>>::empty(),
            device.mtu_spec() == mtu,
    {
        QueuedIpDevice { inbound: VecDeque::new(), outbound: VecDeque::new(), mtu }
    }

    pub fn mtu(&self) -> (mtu: usize)
        ensures
            mtu == self.mtu_spec(),
    {
        self.mtu
    }

    /// Queues a packet for the stack; a packet longer than the MTU is refused.
    pub fn push_inbound(&mut self, packet: Vec<u8>) -> (result: Result<(), StackError>)
        ensures
            result is Ok <==> packet@.len() <= old(self).mtu_spec(),
            result is Ok ==> final(self).inbound_spec() == old(self).inbound_spec().push(packet),
            result is Err ==> final(self).inbound_spec() == old(self).inbound_spec(),
            result matches Err(e) ==> e is Adapter,
            final(self).outbound_spec() == old(self).outbound_spec(),
            final(self).mtu_spec() == old(self).mtu_spec(),
    {
        if packet.len() > self.mtu {
            return Err(StackError::Adapter("inbound packet length exceeds smoltcp MTU".to_owned()));
        }
        self.inbound.push_back(packet);
        Ok(())
    }

    /// The next packet for the stack, if any.
    pub fn receive(&mut self) -> (packet: Option<Vec<u8>>)
        ensures
            old(self).inbound_spec().len() == 0 ==> packet is None && final(self).inbound_spec()
                == old(self).inbound_spec(),
            old(self).inbound_spec().len() > 0 ==> packet == Some(old(self).inbound_spec()[0])
                && final(self).inbound_spec() == old(self).inbound_spec().drop_first(),
            final(self).outbound_spec() == old(self).outbound_spec(),
            final(self).mtu_spec() == old(self).mtu_spec(),
    {
        self.inbound.pop_front()
    }

    /// Records a packet the stack emitted; the stack never emits more than
    /// the MTU.
    pub fn transmit(&mut self, packet: Vec<u8>)
        requires
            packet@.len() <= old(self).mtu_spec(),
        ensures
            final(self).outbound_spec() == old(self).outbound_spec().push(packet),
            final(self).inbound_spec() == old(self).inbound_spec(),
            final(self).mtu_spec() == old(self).mtu_spec(),
    {
        self.outbound.push_back(packet);
    }

    /// Removes and returns every packet the stack emitted, oldest first.
    pub fn drain_outbound(&mut self) -> (packets: Vec<Vec<u8>>)
        ensures
            packets@ == old(self).outbound_spec(),
            final(self).outbound_spec() == Seq::<Vec<u8>>::empty(),
            final(self).inbound_spec() == old(self).inbound_spec(),
            final(self).mtu_spec() == old(self).mtu_spec(),
    {
        let ghost original = self.outbound@;
        let mut packets: Vec<Vec<u8>> = Vec::new();
        while self.outbound.len() > 0
            invariant
                packets@ + self.outbound@ == original,
                self.inbound@ == old(self).inbound@,
                self.mtu == old(self).mtu,
            decreases self.outbound@.len(),
        {
            let ghost before = self.outbound@;
            let packet = self.outbound.pop_front().unwrap();
            packets.push(packet);
            proof {
                assert(packets@ + self.outbound@ =~= original);
            }
        }
        proof {
            assert(packets@ + self.outbound@ =~= packets@);
        }
        packets
    }
}

// ---------------------------------------------------------------------------
// TCP listeners of the adapter.

/// What the adapter knows of one listening socket's current connection.
#[derive(Clone, Copy, Debug, PartialEq, Eq, Structural)]
pub struct TcpListenerState {
    pub observed_connect: bool,
    pub closed_reported: bool,
    pub flow_key: Option<FlowKey>,
    pub sandbox_to_host_bytes: u64,
    pub host_to_sandbox_bytes: u64,
    pub connected_at_millis: i64,
}

/// What the adapter does for a listener after a stack poll.
#[derive(Clone, Debug, PartialEq, Eq)]
pub enum ListenerStep {
    /// The connection ended: report it once.
    Closed(StackFlowClosed),
    /// Nothing to do for this listener now.
    Skip,
    /// The connection is open: report it if it is new, then read its data.
    Open { connect: Option<StackTcpConnect>, source: SocketAddress, destination: SocketAddress },
}

/// Milliseconds from `start` to `now`, zero when `now` is earlier and at
/// most `i64::MAX`.
pub open spec fn elapsed_millis(start: i64, now: i64) -> u64 {
    if now - start > i64::MAX {
        i64::MAX as u64
    } else if now > start {
        (now - start) as u64
    } else {
        0
    }
}

/// Whether an observation of the listener reports its connection as closed:
/// a connection was seen, its close is not reported yet, and the socket is no
/// longer active.
pub open spec fn reports_close(s: TcpListenerState, active: bool) -> bool {
    s.observed_connect && !s.closed_reported && !active && s.flow_key is Some
}

impl TcpListenerState {
    pub fn new() -> (state: TcpListenerState)
        ensures
            state == (TcpListenerState {
                observed_connect: false,
                closed_reported: false,
                flow_key: None,
                sandbox_to_host_bytes: 0,
                host_to_sandbox_bytes: 0,
                connected_at_millis: 0,
            }),
    {
        TcpListenerState {
            observed_connect: false,
            closed_reported: false,
            flow_key: None,
            sandbox_to_host_bytes: 0,
            host_to_sandbox_bytes: 0,
            connected_at_millis: 0,
        }
    }

    /// Decides, from what the socket shows after a poll, whether its
    /// connection closed (reported once, with its byte counts and duration),
    /// opened (reported as a connect attempt the first time), or has nothing
    /// to report; a socket without both endpoints is skipped.
    pub fn observe(
        &mut self,
        sandbox_id: &SandboxId,
        frontend: FrontendKind,
        active: bool,
        remote: Option<SocketAddress>,
        local: Option<SocketAddress>,
        now_millis: i64,
    ) -> (step: ListenerStep)
        ensures
            (step is Closed) == reports_close(*old(self), active),
            ({
                let s = *old(self);
                if s.observed_connect && !s.closed_reported && !active {
                    match s.flow_key {
                        Some(key) => {
                            &&& (step matches ListenerStep::Closed(closed) && closed.sandbox_id@
                                == sandbox_id@ && closed.frontend == frontend && closed.key == key
                                && closed.byte_counts == (ByteCounts {
                                ingress: s.sandbox_to_host_bytes,
                                egress: s.host_to_sandbox_bytes,
                            }) && closed.duration_millis == elapsed_millis(
                                s.connected_at_millis,
                                now_millis,
                            ))
                            &&& *final(self) == (TcpListenerState { closed_reported: true, ..s })
                        },
                        None => step == ListenerStep::Skip && *final(self) == s,
                    }
                } else if remote is None || local is None {
                    step == ListenerStep::Skip && *final(self) == s
                } else if !s.observed_connect {
                    &&& (step matches ListenerStep::Open { connect: Some(c), source, destination }
                        && c.sandbox_id@ == sandbox_id@ && c.frontend == frontend && c.source
                        == remote->Some_0 && c.destination == local->Some_0 && source
                        == remote->Some_0 && destination == local->Some_0)
                    &&& *final(self) == (TcpListenerState {
                        observed_connect: true,
                        closed_reported: false,
                        flow_key: Some(
                            FlowKey {
                                source: remote->Some_0,
                                destination: local->Some_0,
                                protocol: FlowProtocol::Tcp,
                            },
                        ),
                        sandbox_to_host_bytes: 0,
                        host_to_sandbox_bytes: 0,
                        connected_at_millis: now_millis,
                    })
                } else {
                    &&& step == (ListenerStep::Open {
                        connect: None,
                        source: remote->Some_0,
                        destination: local->Some_0,
                    })
                    &&& *final(self) == s
                }
            }),
    {
        if self.observed_connect && !self.closed_reported && !active {
            match self.flow_key {
                Some(key) => {
                    self.closed_reported = true;
                    let diff: i128 = now_millis as i128 - self.connected_at_millis as i128;
                    let duration: u64 = if diff > i64::MAX as i128 {
                        i64::MAX as u64
                    } else if diff > 0 {
                        diff as u64
                    } else {
                        0
                    };
                    return ListenerStep::Closed(
                        StackFlowClosed {
                            sandbox_id: sandbox_id.duplicate(),
                            frontend,
                            key,
                            byte_counts: ByteCounts::new(
                                self.sandbox_to_host_bytes,
                                self.host_to_sandbox_bytes,
                            ),
                            duration_millis: duration,
                        },
                    );
                },
                None => {
                    return ListenerStep::Skip;
                },
            }
        }
        let (source, destination) = match (remote, local) {
            (Some(r), Some(l)) => (r, l),
            _ => {
                return ListenerStep::Skip;
            },
        };
        let connect = if !self.observed_connect {
            self.observed_connect = true;
            self.closed_reported = false;
            self.flow_key = Some(FlowKey { source, destination, protocol: FlowProtocol::Tcp });
            self.sandbox_to_host_bytes = 0;
            self.host_to_sandbox_bytes = 0;
            self.connected_at_millis = now_millis;
            Some(
                StackTcpConnect {
                    sandbox_id: sandbox_id.duplicate(),
                    frontend,
                    source,
                    destination,
                },
            )
        } else {
            None
        };
        ListenerStep::Open { connect, source, destination }
    }

    /// Counts `n` bytes read from the sandbox side of the connection.
    pub fn record_sandbox_bytes(&mut self, n: u64)
        requires
            old(self).sandbox_to_host_bytes + n <= u64::MAX,
        ensures
            *final(self) == (TcpListenerState {
                sandbox_to_host_bytes: (old(self).sandbox_to_host_bytes + n) as u64,
                ..*old(self)
            }),
    {
        self.sandbox_to_host_bytes = self.sandbox_to_host_bytes + n;
    }

    /// Counts `n` bytes written back to the sandbox.
    pub fn record_host_bytes(&mut self, n: u64)
        requires
            old(self).host_to_sandbox_bytes + n <= u64::MAX,
        ensures
            *final(self) == (TcpListenerState {
                host_to_sandbox_bytes: (old(self).host_to_sandbox_bytes + n) as u64,
                ..*old(self)
            }),
    {
        self.host_to_sandbox_bytes = self.host_to_sandbox_bytes + n;
    }
}

/// A connection's close is reported once: after an observation reports it,
/// no later observation of the same connection, active or not, reports it
/// again.
pub proof fn lemma_close_reported_once(s: TcpListenerState, active: bool, later_active: bool)
    requires
        reports_close(s, active),
    ensures
        !reports_close((TcpListenerState { closed_reported: true, ..s }), later_active),
{
}

} // verus!
