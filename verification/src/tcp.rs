//! TCP relay between a userspace stack socket and a host stream: the
//! in-memory raw-IP device the stack runs on, and the relay's counters and
//! errors.

use std::collections::VecDeque;
use crate::text::push_text;
use vstd::prelude::*;

verus! {

/// Raw-IP device backed by queues: packets received for the stack, and the
/// packets the stack transmitted since they were last taken.
pub struct InMemoryIpDevice {
    rx: VecDeque<Vec<u8>>,
    tx: Vec<Vec<u8>>,
    mtu: usize,
}

impl InMemoryIpDevice {
    pub closed spec fn rx_spec(&self) -> Seq<Vec<u8>> {
        self.rx@
    }

    pub closed spec fn tx_spec(&self) -> Seq<Vec<u8>> {
        self.tx@
    }

    pub closed spec fn mtu_spec(&self) -> usize {
        self.mtu
    }

    pub fn new(mtu: usize) -> (device: InMemoryIpDevice)
        ensures
            device.rx_spec() == Seq::<Vec<u8>>::empty(),
            device.tx_spec() == Seq::<Vec<u8>>::empty(),
            device.mtu_spec() == mtu,
    {
        InMemoryIpDevice { rx: VecDeque::new(), tx: Vec::new(), mtu }
    }

    /// Queues a packet for the stack to receive.
    pub fn push_rx(&mut self, packet: Vec<u8>)
        ensures
            final(self).rx_spec() == old(self).rx_spec().push(packet),
            final(self).tx_spec() == old(self).tx_spec(),
            final(self).mtu_spec() == old(self).mtu_spec(),
    {
        self.rx.push_back(packet);
    }

    /// Takes every packet the stack transmitted since the last call, oldest
    /// first, leaving none behind.
    pub fn take_tx(&mut self) -> (packets: Vec<Vec<u8>>)
        ensures
            packets@ == old(self).tx_spec(),
            final(self).tx_spec() == Seq::<Vec<u8>>::empty(),
            final(self).rx_spec() == old(self).rx_spec(),
            final(self).mtu_spec() == old(self).mtu_spec(),
    {
        let mut packets: Vec<Vec<u8>> = Vec::new();
        std::mem::swap(&mut packets, &mut self.tx);
        packets
    }

    pub fn mtu(&self) -> (mtu: usize)
        ensures
            mtu == self.mtu_spec(),
    {
        self.mtu
    }

    /// Hands the next received packet to the stack, with a token to reply
    /// through; `None` when nothing was received.
    pub fn receive(&mut self) -> (tokens: Option<(InMemoryRxToken, InMemoryTxToken)>)
        ensures
            old(self).rx_spec().len() == 0 ==> tokens is None && final(self).rx_spec()
                == old(self).rx_spec(),
            old(self).rx_spec().len() > 0 ==> (tokens matches Some((rx, _)) && rx.packet
                == old(self).rx_spec()[0] && final(self).rx_spec() == old(self).rx_spec().drop_first()),
            final(self).tx_spec() == old(self).tx_spec(),
            final(self).mtu_spec() == old(self).mtu_spec(),
    {
        match self.rx.pop_front() {
            Some(packet) => Some((InMemoryRxToken { packet }, InMemoryTxToken {  })),
            None => None,
        }
    }

    /// A token through which the stack may transmit one packet; always available.
    pub fn transmit(&self) -> (token: InMemoryTxToken) {
        InMemoryTxToken {  }
    }
}

/// A packet handed to the stack.
pub struct InMemoryRxToken {
    pub packet: Vec<u8>,
}

impl InMemoryRxToken {
    /// The packet's bytes.
    pub fn consume(self) -> (packet: Vec<u8>)
        ensures
            packet == self.packet,
    {
        self.packet
    }
}

/// Permission to transmit one packet.
pub struct InMemoryTxToken {}

impl InMemoryTxToken {
    /// Records `packet` as transmitted by the stack.
    pub fn consume(self, device: &mut InMemoryIpDevice, packet: Vec<u8>)
        ensures
            final(device).tx_spec() == old(device).tx_spec().push(packet),
            final(device).rx_spec() == old(device).rx_spec(),
            final(device).mtu_spec() == old(device).mtu_spec(),
    {
        device.tx.push(packet);
    }
}

/// Byte counts for one stack socket ↔ host stream relay step.
#[derive(Clone, Copy, Debug, PartialEq, Eq, Structural)]
pub struct TcpRelayOnceStats {
    pub sandbox_to_host_bytes: usize,
    pub host_to_sandbox_bytes: usize,
}

/// Errors from one stack socket ↔ host stream relay step.
#[derive(Clone, Debug, PartialEq, Eq)]
pub enum TcpRelayError {
    SmoltcpRecv(String),
    HostWrite(String),
    HostRead(String),
    SmoltcpSend(String),
}

impl TcpRelayError {
    /// A one-line description of the error.
    pub fn describe(&self) -> (text: String)
        ensures
            text@ == (match self {
                TcpRelayError::SmoltcpRecv(e) => "tcp-relay-smoltcp-recv-error: "@ + e@,
                TcpRelayError::HostWrite(e) => "tcp-relay-host-write-error: "@ + e@,
                TcpRelayError::HostRead(e) => "tcp-relay-host-read-error: "@ + e@,
                TcpRelayError::SmoltcpSend(e) => "tcp-relay-smoltcp-send-error: "@ + e@,
            }),
    {
        let mut text = String::new();
        match self {
            TcpRelayError::SmoltcpRecv(e) => {
                push_text(&mut text, "tcp-relay-smoltcp-recv-error: ");
                push_text(&mut text, e.as_str());
            },
            TcpRelayError::HostWrite(e) => {
                push_text(&mut text, "tcp-relay-host-write-error: ");
                push_text(&mut text, e.as_str());
            },
            TcpRelayError::HostRead(e) => {
                push_text(&mut text, "tcp-relay-host-read-error: ");
                push_text(&mut text, e.as_str());
            },
            TcpRelayError::SmoltcpSend(e) => {
                push_text(&mut text, "tcp-relay-smoltcp-send-error: ");
                push_text(&mut text, e.as_str());
            },
        }
        text
    }
}

} // verus!
