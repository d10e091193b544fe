//! Normalized identities shared by the packet, proxy, and bridge layers.

use vstd::prelude::*;

verus! {

/// Identifier of the sandbox (session) a flow belongs to.
#[derive(Clone, Debug, PartialEq, Eq, Hash)]
pub struct SandboxId {
    value: String,
}

impl View for SandboxId {
    type V = Seq<char>;

    closed spec fn view(&self) -> Seq<char> {
        self.value@
    }
}

impl SandboxId {
    pub fn new(value: &str) -> (id: SandboxId)
        ensures
            id@ == value@,
    {
        SandboxId { value: value.to_owned() }
    }

    pub fn as_str(&self) -> (s: &str)
        ensures
            s@ == self@,
    {
        self.value.as_str()
    }

    /// A copy of this identifier.
    pub fn duplicate(&self) -> (id: SandboxId)
        ensures
            id@ == self@,
    {
        SandboxId { value: self.value.clone() }
    }

    /// Whether both identifiers name the same sandbox.
    pub fn same_sandbox(&self, other: &SandboxId) -> (same: bool)
        ensures
            same == (self@ == other@),
    {
        self.value == other.value
    }
}

/// The frontend through which a sandbox's traffic reached the broker.
#[derive(Clone, Copy, Debug, PartialEq, Eq, Hash, Structural)]
pub enum FrontendKind {
    Tun,
    HttpProxy,
    Socks5,
}

/// An IP address; IPv4 addresses are held as their big-endian 32-bit value
/// and IPv6 addresses as their big-endian 128-bit value.
#[derive(Clone, Copy, Debug, PartialEq, Eq, Hash, Structural)]
pub enum IpAddress {
    V4(u32),
    V6(u128),
}

/// An IP address and transport port.
#[derive(Clone, Copy, Debug, PartialEq, Eq, Hash, Structural)]
pub struct SocketAddress {
    pub ip: IpAddress,
    pub port: u16,
}

impl SocketAddress {
    pub fn is_ipv4(&self) -> (v4: bool)
        ensures
            v4 == (self.ip is V4),
    {
        match self.ip {
            IpAddress::V4(_) => true,
            IpAddress::V6(_) => false,
        }
    }
}

/// Outcome that policy evaluation recorded for an event.
#[derive(Clone, Copy, Debug, PartialEq, Eq, Hash, Structural)]
pub enum AuditDecision {
    Allowed,
    Denied,
    FailClosed,
    Observed,
}

/// How policy asked for a denied packet to be answered.
#[derive(Clone, Copy, Debug, PartialEq, Eq, Hash, Structural)]
pub enum DenialAction {
    Drop,
    Reset,
    IcmpUnreachable,
}

} // verus!
