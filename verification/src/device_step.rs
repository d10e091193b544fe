//! Sandbox TCP data arriving from the userspace stack: the first payload of
//! a transparent flow to port 80 or 443 is inspected and judged by policy
//! before any of it reaches the host; a denied flow loses its bridge.

use crate::bridge::{
    socket_address_of, EgressError, FlowKeyView, HostTcpStream, StackTcpBridgeTable,
    StackTcpFlowKey,
};
use crate::net::{FlowProtocol, StackFlowClosed, StackTcpData};
use crate::packet::TcpConnectAttempt;
use vstd::prelude::*;

verus! {

/// The inspection a first payload needs before it may reach the host.
#[derive(Clone, Copy, Debug, PartialEq, Eq, Structural)]
pub enum FirstPayloadInspection {
    /// A plaintext HTTP request, to port 80.
    PlaintextHttp,
    /// A TLS client hello, to port 443.
    TlsClientHello,
}

/// The inspection that a first payload to `port` gets.
pub open spec fn inspection_for_port(port: u16) -> Option<FirstPayloadInspection> {
    if port == 80 {
        Some(FirstPayloadInspection::PlaintextHttp)
    } else if port == 443 {
        Some(FirstPayloadInspection::TlsClientHello)
    } else {
        None
    }
}

/// What became of one sandbox TCP data event.
#[derive(Clone, Copy, Debug, PartialEq, Eq, Structural)]
pub enum TcpDataOutcome {
    /// This many bytes reached the host stream (the rest wait in the
    /// flow's pending buffer).
    Written(usize),
    /// No bridge holds the flow.
    NoBridge,
    /// Policy denied the inspected first payload; the bridge was removed.
    Denied,
}

/// The key of the flow that `data` belongs to.
pub open spec fn data_key(data: &StackTcpData) -> FlowKeyView {
    (data.sandbox_id@, data.frontend, data.source, data.destination)
}

/// First half of handling `data`: marks the flow's first payload as
/// inspected and returns the inspection it needs before it may be written,
/// which only the first payload of a bridged flow to port 80 or 443 needs.
pub fn begin_tcp_data<T: HostTcpStream>(
    bridges: &mut StackTcpBridgeTable<T>,
    data: &StackTcpData,
) -> (inspection: Option<FirstPayloadInspection>)
    requires
        old(bridges).wf(),
    ensures
        final(bridges).wf(),
        final(bridges).keys() == old(bridges).keys(),
        final(bridges).streams() == old(bridges).streams(),
        final(bridges).pending() == old(bridges).pending(),
        final(bridges).limits_spec() == old(bridges).limits_spec(),
        final(bridges).read_cursor_spec() == old(bridges).read_cursor_spec(),
        old(bridges).keys().contains(data_key(data)) ==> {
            let i = old(bridges).keys().index_of(data_key(data));
            &&& final(bridges).inspected() == old(bridges).inspected().update(i, true)
            &&& inspection == if old(bridges).inspected()[i] {
                None
            } else {
                inspection_for_port(data.destination.port)
            }
        },
        !old(bridges).keys().contains(data_key(data)) ==> inspection is None
            && final(bridges).inspected() == old(bridges).inspected(),
{
    let key = StackTcpFlowKey::from_tcp_data(data);
    match bridges.mark_first_payload_inspected(&key) {
        Some(true) => {
            if data.destination.port == 80 {
                Some(FirstPayloadInspection::PlaintextHttp)
            } else if data.destination.port == 443 {
                Some(FirstPayloadInspection::TlsClientHello)
            } else {
                None
            }
        },
        _ => None,
    }
}

/// Second half of handling `data`: `allowed` is the policy's verdict on the
/// inspected first payload, `None` where no inspection was needed. A denied
/// payload removes the flow's bridge and reaches no host stream; otherwise
/// the bytes go to the flow's host stream as `write_from_sandbox` sends
/// them.
pub fn finish_tcp_data<T: HostTcpStream>(
    bridges: &mut StackTcpBridgeTable<T>,
    data: &StackTcpData,
    allowed: Option<bool>,
) -> (result: Result<TcpDataOutcome, EgressError>)
    requires
        old(bridges).wf(),
    ensures
        final(bridges).wf(),
        final(bridges).limits_spec() == old(bridges).limits_spec(),
        final(bridges).read_cursor_spec() == old(bridges).read_cursor_spec(),
        allowed == Some(false) ==> {
            &&& result == Ok::<TcpDataOutcome, EgressError>(TcpDataOutcome::Denied)
            &&& !final(bridges).keys().contains(data_key(data))
            &&& old(bridges).keys().contains(data_key(data)) ==> {
                let i = old(bridges).keys().index_of(data_key(data));
                &&& final(bridges).keys() == old(bridges).keys().remove(i)
                &&& final(bridges).streams() == old(bridges).streams().remove(i)
            }
            &&& !old(bridges).keys().contains(data_key(data)) ==> final(bridges).keys() == old(bridges).keys()
        },
        allowed != Some(false) ==> {
            &&& final(bridges).keys() == old(bridges).keys()
            &&& final(bridges).streams().len() == old(bridges).streams().len()
            &&& old(bridges).keys().contains(data_key(data)) ==> {
                let i = old(bridges).keys().index_of(data_key(data));
                let w0 = old(bridges).streams()[i].sandbox_writes();
                let w1 = final(bridges).streams()[i].sandbox_writes();
                &&& forall|j: int|
                    0 <= j < old(bridges).streams().len() && j != i ==> #[trigger] final(bridges).streams()[j] == old(bridges).streams()[j]
                &&& w1 == w0 || w1 == w0.push(data.bytes@)
                &&& old(bridges).pending()[i].len() > 0 ==> w1 == w0
                &&& (result matches Ok(TcpDataOutcome::Written(n)) && n > 0) ==> w1 == w0.push(
                    data.bytes@,
                )
                &&& result matches Ok(TcpDataOutcome::Written(n)) ==> n <= data.bytes@.len()
                &&& result is Ok ==> result matches Ok(TcpDataOutcome::Written(_))
            }
            &&& !old(bridges).keys().contains(data_key(data)) ==> result == Ok::<
                TcpDataOutcome,
                EgressError,
            >(TcpDataOutcome::NoBridge) && final(bridges).streams() == old(bridges).streams()
        },
{
    let key = StackTcpFlowKey::from_tcp_data(data);
    if let Some(false) = allowed {
        let _ = bridges.remove(&key);
        return Ok(TcpDataOutcome::Denied);
    }
    match bridges.write_from_sandbox(data) {
        Ok(Some(n)) => Ok(TcpDataOutcome::Written(n)),
        Ok(None) => Ok(TcpDataOutcome::NoBridge),
        Err(e) => Err(e),
    }
}

/// The bridge key of the flow that `closed` reports, for a TCP flow.
pub open spec fn closed_key(closed: &StackFlowClosed) -> FlowKeyView {
    (closed.sandbox_id@, closed.frontend, closed.key.source, closed.key.destination)
}

/// Handles a stack flow-closed event once its audit append reported:
/// `audit_recorded` false ends with nothing removed (the audit error is the
/// caller's to return); otherwise a closed TCP flow loses its bridge, and
/// the result says whether it had one. A UDP flow has no stack bridge.
pub fn finish_flow_closed<T: HostTcpStream>(
    bridges: &mut StackTcpBridgeTable<T>,
    closed: &StackFlowClosed,
    audit_recorded: bool,
) -> (removed: Option<bool>)
    requires
        old(bridges).wf(),
    ensures
        final(bridges).wf(),
        final(bridges).limits_spec() == old(bridges).limits_spec(),
        final(bridges).read_cursor_spec() == old(bridges).read_cursor_spec(),
        !audit_recorded ==> removed is None && final(bridges).keys() == old(bridges).keys()
            && final(bridges).streams() == old(bridges).streams(),
        audit_recorded && closed.key.protocol == FlowProtocol::Udp ==> removed == Some(false)
            && final(bridges).keys() == old(bridges).keys() && final(bridges).streams() == old(bridges).streams(),
        audit_recorded && closed.key.protocol == FlowProtocol::Tcp ==> {
            &&& removed == Some(old(bridges).keys().contains(closed_key(closed)))
            &&& !final(bridges).keys().contains(closed_key(closed))
            &&& old(bridges).keys().contains(closed_key(closed)) ==> {
                let i = old(bridges).keys().index_of(closed_key(closed));
                &&& final(bridges).keys() == old(bridges).keys().remove(i)
                &&& final(bridges).streams() == old(bridges).streams().remove(i)
            }
        },
{
    if !audit_recorded {
        return None;
    }
    match closed.key.protocol {
        FlowProtocol::Udp => Some(false),
        FlowProtocol::Tcp => {
            let key = StackTcpFlowKey::new(
                closed.sandbox_id.duplicate(),
                closed.frontend,
                closed.key.source,
                closed.key.destination,
            );
            Some(bridges.remove(&key).is_some())
        },
    }
}

/// Keeps the host stream that policy and egress opened for the sandbox's
/// connect attempt, under the flow's bridge key and the table's limits
/// (see `try_insert`).
pub fn retain_connected_stream<T: HostTcpStream>(
    bridges: &mut StackTcpBridgeTable<T>,
    connect: &TcpConnectAttempt,
    stream: T,
) -> (result: Result<Option<T>, EgressError>)
    requires
        old(bridges).wf(),
    ensures
        final(bridges).wf(),
        ({
            let k = (
                connect.sandbox_id@,
                connect.frontend,
                socket_address_of(connect.source),
                socket_address_of(connect.destination),
            );
            &&& result is Ok <==> old(bridges).admits(k)
            &&& result is Ok ==> final(bridges).keys().contains(k)
            &&& !old(bridges).admits(k) ==> final(bridges).keys() == old(bridges).keys()
                && final(bridges).streams() == old(bridges).streams()
        }),
{
    let key = StackTcpFlowKey::from_connect_attempt(connect);
    let ghost k = key@;
    let result = bridges.try_insert(key, stream);
    proof {
        if result is Ok && !old(bridges).keys().contains(k) {
            assert(bridges.keys().last() == k);
        }
    }
    result
}

} // verus!
