//! The broker's handling of one inspected IPv4 packet and of one DNS query,
//! as step functions from phase and the outcome of the last outside
//! operation (an audit append, an egress dispatch, a UDP send, a DNS
//! resolution, a reply build) to the next phase and operation. The policy
//! decision comes first and is audited before anything reaches the host;
//! nothing reaches the host after a denial or a failed audit.

use vstd::prelude::*;

verus! {

// ---------------------------------------------------------------------------
// One inspected IPv4 packet.

/// Where the handling of an inspected IPv4 packet ends.
#[derive(Clone, Copy, Debug, PartialEq, Eq, Structural)]
pub enum PacketBrokerEnd {
    /// The allowed event was dispatched to egress; `udp_sent` says whether a
    /// UDP payload was sent, `reply` whether a synthetic reply was queued.
    Forwarded { udp_sent: bool, reply: bool },
    /// The allowed event needs no egress.
    NoEgress { reply: bool },
    /// Policy denied the packet; `reply` says whether a denial reply was
    /// built.
    Denied { reply: bool },
    /// The audit record could not be appended.
    AuditFailed,
    /// Egress failed.
    EgressFailed,
    /// A reply packet could not be built.
    ReplyFailed,
    /// An event that the phase does not expect: handling fails closed.
    FailClosed,
}

/// Which operation the packet handling waits on; `allowed` is the policy
/// decision, `udp_payload` whether the packet carries a UDP payload, and
/// `reply` whether inspection produced a synthetic reply.
#[derive(Clone, Copy, Debug, PartialEq, Eq, Structural)]
pub enum PacketBrokerPhase {
    Start { allowed: bool, udp_payload: bool, reply: bool },
    AwaitAudit { allowed: bool, udp_payload: bool, reply: bool },
    AwaitDispatch { udp_payload: bool, reply: bool },
    AwaitUdpSend { reply: bool },
    AwaitReply { end: PacketBrokerEnd },
    AwaitDenialReply,
    Done,
}

/// What the last operation reported.
#[derive(Clone, Copy, Debug, PartialEq, Eq, Structural)]
pub enum PacketBrokerEvent {
    Begin,
    AuditRecorded,
    AuditFailed,
    Dispatched { udp_opened: bool },
    DispatchUnsupported,
    DispatchFailed,
    UdpSent,
    UdpSendFailed,
    /// A reply build finished; `some` when it produced a packet.
    ReplyBuilt { some: bool },
    ReplyFailed,
}

/// The next operation of the packet handling.
#[derive(Clone, Copy, Debug, PartialEq, Eq, Structural)]
pub enum PacketBrokerAction {
    /// Append the audit record of the decision.
    AuditDecision,
    /// Hand the allowed event to egress.
    Dispatch,
    /// Send the packet's UDP payload through the opened flow.
    SendUdpPayload,
    /// Queue the synthetic reply for the device.
    QueueSyntheticReply,
    /// Build the denial reply the decision calls for.
    SynthesizeDenialReply,
    Finish(PacketBrokerEnd),
}

/// After egress: queue the synthetic reply when there is one, else end.
pub open spec fn after_egress(reply: bool, end: PacketBrokerEnd) -> (PacketBrokerPhase, PacketBrokerAction) {
    if reply {
        (PacketBrokerPhase::AwaitReply { end }, PacketBrokerAction::QueueSyntheticReply)
    } else {
        (PacketBrokerPhase::Done, PacketBrokerAction::Finish(end))
    }
}

/// One step of handling an inspected IPv4 packet: audit the decision; an
/// allowed event is dispatched to egress, a UDP payload is sent when a UDP
/// flow was opened, and a synthetic reply is queued; a denied packet gets
/// the denial reply its decision calls for and never reaches egress.
pub open spec fn packet_broker_next(phase: PacketBrokerPhase, event: PacketBrokerEvent) -> (
    PacketBrokerPhase,
    PacketBrokerAction,
) {
    match (phase, event) {
        (PacketBrokerPhase::Start { allowed, udp_payload, reply }, _) => (
            PacketBrokerPhase::AwaitAudit { allowed, udp_payload, reply },
            PacketBrokerAction::AuditDecision,
        ),
        (
            PacketBrokerPhase::AwaitAudit { allowed, udp_payload, reply },
            PacketBrokerEvent::AuditRecorded,
        ) => if allowed {
            (PacketBrokerPhase::AwaitDispatch { udp_payload, reply }, PacketBrokerAction::Dispatch)
        } else {
            (PacketBrokerPhase::AwaitDenialReply, PacketBrokerAction::SynthesizeDenialReply)
        },
        (PacketBrokerPhase::AwaitAudit { .. }, _) => (
            PacketBrokerPhase::Done,
            PacketBrokerAction::Finish(PacketBrokerEnd::AuditFailed),
        ),
        (
            PacketBrokerPhase::AwaitDispatch { udp_payload, reply },
            PacketBrokerEvent::Dispatched { udp_opened },
        ) => if udp_payload && udp_opened {
            (PacketBrokerPhase::AwaitUdpSend { reply }, PacketBrokerAction::SendUdpPayload)
        } else {
            after_egress(reply, PacketBrokerEnd::Forwarded { udp_sent: false, reply })
        },
        (PacketBrokerPhase::AwaitDispatch { reply, .. }, PacketBrokerEvent::DispatchUnsupported) => {
            after_egress(reply, PacketBrokerEnd::NoEgress { reply })
        },
        (PacketBrokerPhase::AwaitDispatch { .. }, _) => (
            PacketBrokerPhase::Done,
            PacketBrokerAction::Finish(PacketBrokerEnd::EgressFailed),
        ),
        (PacketBrokerPhase::AwaitUdpSend { reply }, PacketBrokerEvent::UdpSent) => after_egress(
            reply,
            PacketBrokerEnd::Forwarded { udp_sent: true, reply },
        ),
        (PacketBrokerPhase::AwaitUdpSend { .. }, _) => (
            PacketBrokerPhase::Done,
            PacketBrokerAction::Finish(PacketBrokerEnd::EgressFailed),
        ),
        (PacketBrokerPhase::AwaitReply { end }, PacketBrokerEvent::ReplyBuilt { .. }) => (
            PacketBrokerPhase::Done,
            PacketBrokerAction::Finish(end),
        ),
        (PacketBrokerPhase::AwaitReply { .. }, _) => (
            PacketBrokerPhase::Done,
            PacketBrokerAction::Finish(PacketBrokerEnd::ReplyFailed),
        ),
        (PacketBrokerPhase::AwaitDenialReply, PacketBrokerEvent::ReplyBuilt { some }) => (
            PacketBrokerPhase::Done,
            PacketBrokerAction::Finish(PacketBrokerEnd::Denied { reply: some }),
        ),
        (PacketBrokerPhase::AwaitDenialReply, _) => (
            PacketBrokerPhase::Done,
            PacketBrokerAction::Finish(PacketBrokerEnd::ReplyFailed),
        ),
        (PacketBrokerPhase::Done, _) => (
            PacketBrokerPhase::Done,
            PacketBrokerAction::Finish(PacketBrokerEnd::FailClosed),
        ),
    }
}

fn finish_after_egress(reply: bool, end: PacketBrokerEnd) -> (step: (PacketBrokerPhase, PacketBrokerAction))
    ensures
        step == after_egress(reply, end),
{
    if reply {
        (PacketBrokerPhase::AwaitReply { end }, PacketBrokerAction::QueueSyntheticReply)
    } else {
        (PacketBrokerPhase::Done, PacketBrokerAction::Finish(end))
    }
}

/// One step of handling an inspected IPv4 packet (see
/// `packet_broker_next`). Egress is only reached after the decision was
/// audited and allowed the event; a UDP payload is only sent through a flow
/// that dispatch opened; a denial reply is only built for an audited
/// denial.
pub fn packet_broker_step(phase: PacketBrokerPhase, event: PacketBrokerEvent) -> (step: (
    PacketBrokerPhase,
    PacketBrokerAction,
))
    requires
        !(phase is Done),
    ensures
        step == packet_broker_next(phase, event),
        step.1 is Finish <==> step.0 is Done,
        step.1 is Dispatch ==> (phase matches PacketBrokerPhase::AwaitAudit { allowed: true, .. })
            && event is AuditRecorded,
        step.0 is AwaitDispatch ==> (phase matches PacketBrokerPhase::AwaitAudit {
            allowed: true,
            ..
        }) && event is AuditRecorded,
        step.1 is SendUdpPayload ==> (phase matches PacketBrokerPhase::AwaitDispatch {
            udp_payload: true,
            ..
        }) && event == (PacketBrokerEvent::Dispatched { udp_opened: true }),
        step.1 is SynthesizeDenialReply ==> (phase matches PacketBrokerPhase::AwaitAudit {
            allowed: false,
            ..
        }) && event is AuditRecorded,
        (phase matches PacketBrokerPhase::AwaitAudit { allowed: false, .. }) ==> !(step.1 is Dispatch)
            && !(step.0 is AwaitDispatch),
{
    match (phase, event) {
        (PacketBrokerPhase::Start { allowed, udp_payload, reply }, _) => (
            PacketBrokerPhase::AwaitAudit { allowed, udp_payload, reply },
            PacketBrokerAction::AuditDecision,
        ),
        (
            PacketBrokerPhase::AwaitAudit { allowed, udp_payload, reply },
            PacketBrokerEvent::AuditRecorded,
        ) => if allowed {
            (PacketBrokerPhase::AwaitDispatch { udp_payload, reply }, PacketBrokerAction::Dispatch)
        } else {
            (PacketBrokerPhase::AwaitDenialReply, PacketBrokerAction::SynthesizeDenialReply)
        },
        (PacketBrokerPhase::AwaitAudit { .. }, _) => (
            PacketBrokerPhase::Done,
            PacketBrokerAction::Finish(PacketBrokerEnd::AuditFailed),
        ),
        (
            PacketBrokerPhase::AwaitDispatch { udp_payload, reply },
            PacketBrokerEvent::Dispatched { udp_opened },
        ) => if udp_payload && udp_opened {
            (PacketBrokerPhase::AwaitUdpSend { reply }, PacketBrokerAction::SendUdpPayload)
        } else {
            finish_after_egress(reply, PacketBrokerEnd::Forwarded { udp_sent: false, reply })
        },
        (PacketBrokerPhase::AwaitDispatch { reply, .. }, PacketBrokerEvent::DispatchUnsupported) => {
            finish_after_egress(reply, PacketBrokerEnd::NoEgress { reply })
        },
        (PacketBrokerPhase::AwaitDispatch { .. }, _) => (
            PacketBrokerPhase::Done,
            PacketBrokerAction::Finish(PacketBrokerEnd::EgressFailed),
        ),
        (PacketBrokerPhase::AwaitUdpSend { reply }, PacketBrokerEvent::UdpSent) => finish_after_egress(
            reply,
            PacketBrokerEnd::Forwarded { udp_sent: true, reply },
        ),
        (PacketBrokerPhase::AwaitUdpSend { .. }, _) => (
            PacketBrokerPhase::Done,
            PacketBrokerAction::Finish(PacketBrokerEnd::EgressFailed),
        ),
        (PacketBrokerPhase::AwaitReply { end }, PacketBrokerEvent::ReplyBuilt { .. }) => (
            PacketBrokerPhase::Done,
            PacketBrokerAction::Finish(end),
        ),
        (PacketBrokerPhase::AwaitReply { .. }, _) => (
            PacketBrokerPhase::Done,
            PacketBrokerAction::Finish(PacketBrokerEnd::ReplyFailed),
        ),
        (PacketBrokerPhase::AwaitDenialReply, PacketBrokerEvent::ReplyBuilt { some }) => (
            PacketBrokerPhase::Done,
            PacketBrokerAction::Finish(PacketBrokerEnd::Denied { reply: some }),
        ),
        (PacketBrokerPhase::AwaitDenialReply, _) => (
            PacketBrokerPhase::Done,
            PacketBrokerAction::Finish(PacketBrokerEnd::ReplyFailed),
        ),
        (PacketBrokerPhase::Done, _) => (
            PacketBrokerPhase::Done,
            PacketBrokerAction::Finish(PacketBrokerEnd::FailClosed),
        ),
    }
}

// ---------------------------------------------------------------------------
// One DNS query packet.

/// Where the handling of a DNS query packet ends.
#[derive(Clone, Copy, Debug, PartialEq, Eq, Structural)]
pub enum DnsBrokerEnd {
    /// The allowed query was resolved and answered.
    Answered,
    /// The allowed event is not a DNS query: no response.
    NoResponse,
    /// Policy refused the query; `response` says whether a REFUSED
    /// response could be built (it cannot for an unparseable query).
    Refused { response: bool },
    /// The audit record could not be appended.
    AuditFailed,
    /// Resolution through egress failed.
    ResolveFailed,
    /// The address response could not be built.
    ResponseFailed,
    /// An event that the phase does not expect: handling fails closed.
    FailClosed,
}

/// Which operation the DNS handling waits on; `allowed` is the policy
/// decision and `query` whether the packet parsed as a DNS query.
#[derive(Clone, Copy, Debug, PartialEq, Eq, Structural)]
pub enum DnsBrokerPhase {
    Start { allowed: bool, query: bool },
    AwaitAudit { allowed: bool, query: bool },
    AwaitResolve,
    AwaitAnswer,
    AwaitRefused,
    Done,
}

/// What the last operation reported.
#[derive(Clone, Copy, Debug, PartialEq, Eq, Structural)]
pub enum DnsBrokerEvent {
    Begin,
    AuditRecorded,
    AuditFailed,
    Resolved,
    ResolveFailed,
    /// A response build finished; `some` when it produced a response.
    ResponseBuilt { some: bool },
    ResponseFailed,
}

/// The next operation of the DNS handling.
#[derive(Clone, Copy, Debug, PartialEq, Eq, Structural)]
pub enum DnsBrokerAction {
    AuditDecision,
    /// Resolve the queried name through shared egress.
    Resolve,
    /// Build the address response from the resolved addresses.
    BuildAnswer,
    /// Build a REFUSED response to the query.
    BuildRefused,
    Finish(DnsBrokerEnd),
}

/// One step of handling a DNS query packet: audit the decision; an allowed
/// query is resolved through egress and answered; a refused one gets a
/// REFUSED response when the query parses, and is never resolved.
pub open spec fn dns_broker_next(phase: DnsBrokerPhase, event: DnsBrokerEvent) -> (
    DnsBrokerPhase,
    DnsBrokerAction,
) {
    match (phase, event) {
        (DnsBrokerPhase::Start { allowed, query }, _) => (
            DnsBrokerPhase::AwaitAudit { allowed, query },
            DnsBrokerAction::AuditDecision,
        ),
        (DnsBrokerPhase::AwaitAudit { allowed, query }, DnsBrokerEvent::AuditRecorded) => if !allowed {
            (DnsBrokerPhase::AwaitRefused, DnsBrokerAction::BuildRefused)
        } else if query {
            (DnsBrokerPhase::AwaitResolve, DnsBrokerAction::Resolve)
        } else {
            (DnsBrokerPhase::Done, DnsBrokerAction::Finish(DnsBrokerEnd::NoResponse))
        },
        (DnsBrokerPhase::AwaitAudit { .. }, _) => (
            DnsBrokerPhase::Done,
            DnsBrokerAction::Finish(DnsBrokerEnd::AuditFailed),
        ),
        (DnsBrokerPhase::AwaitResolve, DnsBrokerEvent::Resolved) => (
            DnsBrokerPhase::AwaitAnswer,
            DnsBrokerAction::BuildAnswer,
        ),
        (DnsBrokerPhase::AwaitResolve, _) => (
            DnsBrokerPhase::Done,
            DnsBrokerAction::Finish(DnsBrokerEnd::ResolveFailed),
        ),
        (DnsBrokerPhase::AwaitAnswer, DnsBrokerEvent::ResponseBuilt { some: true }) => (
            DnsBrokerPhase::Done,
            DnsBrokerAction::Finish(DnsBrokerEnd::Answered),
        ),
        (DnsBrokerPhase::AwaitAnswer, _) => (
            DnsBrokerPhase::Done,
            DnsBrokerAction::Finish(DnsBrokerEnd::ResponseFailed),
        ),
        (DnsBrokerPhase::AwaitRefused, DnsBrokerEvent::ResponseBuilt { some }) => (
            DnsBrokerPhase::Done,
            DnsBrokerAction::Finish(DnsBrokerEnd::Refused { response: some }),
        ),
        (DnsBrokerPhase::AwaitRefused, _) => (
            DnsBrokerPhase::Done,
            DnsBrokerAction::Finish(DnsBrokerEnd::Refused { response: false }),
        ),
        (DnsBrokerPhase::Done, _) => (
            DnsBrokerPhase::Done,
            DnsBrokerAction::Finish(DnsBrokerEnd::FailClosed),
        ),
    }
}

/// One step of handling a DNS query packet (see `dns_broker_next`). A name
/// is only resolved for a query whose decision was audited and allowed.
pub fn dns_broker_step(phase: DnsBrokerPhase, event: DnsBrokerEvent) -> (step: (
    DnsBrokerPhase,
    DnsBrokerAction,
))
    requires
        !(phase is Done),
    ensures
        step == dns_broker_next(phase, event),
        step.1 is Finish <==> step.0 is Done,
        step.1 is Resolve ==> phase == (DnsBrokerPhase::AwaitAudit { allowed: true, query: true })
            && event is AuditRecorded,
        step.1 is BuildRefused ==> (phase matches DnsBrokerPhase::AwaitAudit { allowed: false, .. })
            && event is AuditRecorded,
        (phase matches DnsBrokerPhase::AwaitAudit { allowed: false, .. }) ==> !(step.1 is Resolve),
{
    match (phase, event) {
        (DnsBrokerPhase::Start { allowed, query }, _) => (
            DnsBrokerPhase::AwaitAudit { allowed, query },
            DnsBrokerAction::AuditDecision,
        ),
        (DnsBrokerPhase::AwaitAudit { allowed, query }, DnsBrokerEvent::AuditRecorded) => if !allowed {
            (DnsBrokerPhase::AwaitRefused, DnsBrokerAction::BuildRefused)
        } else if query {
            (DnsBrokerPhase::AwaitResolve, DnsBrokerAction::Resolve)
        } else {
            (DnsBrokerPhase::Done, DnsBrokerAction::Finish(DnsBrokerEnd::NoResponse))
        },
        (DnsBrokerPhase::AwaitAudit { .. }, _) => (
            DnsBrokerPhase::Done,
            DnsBrokerAction::Finish(DnsBrokerEnd::AuditFailed),
        ),
        (DnsBrokerPhase::AwaitResolve, DnsBrokerEvent::Resolved) => (
            DnsBrokerPhase::AwaitAnswer,
            DnsBrokerAction::BuildAnswer,
        ),
        (DnsBrokerPhase::AwaitResolve, _) => (
            DnsBrokerPhase::Done,
            DnsBrokerAction::Finish(DnsBrokerEnd::ResolveFailed),
        ),
        (DnsBrokerPhase::AwaitAnswer, DnsBrokerEvent::ResponseBuilt { some: true }) => (
            DnsBrokerPhase::Done,
            DnsBrokerAction::Finish(DnsBrokerEnd::Answered),
        ),
        (DnsBrokerPhase::AwaitAnswer, _) => (
            DnsBrokerPhase::Done,
            DnsBrokerAction::Finish(DnsBrokerEnd::ResponseFailed),
        ),
        (DnsBrokerPhase::AwaitRefused, DnsBrokerEvent::ResponseBuilt { some }) => (
            DnsBrokerPhase::Done,
            DnsBrokerAction::Finish(DnsBrokerEnd::Refused { response: some }),
        ),
        (DnsBrokerPhase::AwaitRefused, _) => (
            DnsBrokerPhase::Done,
            DnsBrokerAction::Finish(DnsBrokerEnd::Refused { response: false }),
        ),
        (DnsBrokerPhase::Done, _) => (
            DnsBrokerPhase::Done,
            DnsBrokerAction::Finish(DnsBrokerEnd::FailClosed),
        ),
    }
}

} // verus!
