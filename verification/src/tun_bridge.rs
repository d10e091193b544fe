//! The decisions of the TUN bridges, as step functions from the bridge's
//! phase and the outcome of the last outside operation (a device read, a
//! packet parse, an audit append, a policy evaluation, a host exchange, a
//! device write) to the next phase and the next operation. Nothing reaches
//! the stack, the host or the device after a malformed packet, a refused
//! audit, or a denial.

use vstd::prelude::*;

verus! {

// ---------------------------------------------------------------------------
// One UDP datagram from the TUN device, exchanged with the host.

/// Where a UDP datagram exchange ends.
#[derive(Clone, Copy, Debug, PartialEq, Eq, Structural)]
pub enum UdpBridgeEnd {
    /// The device had no packet.
    NoPacket,
    /// Reading the device failed; `send_side` when the device reported a
    /// write-side failure.
    DeviceError { send_side: bool },
    /// The packet did not parse: it fails closed.
    FailClosedMalformed,
    /// The packet is not UDP: it fails closed.
    FailClosedUnsupported,
    /// The UDP payload or the reply template could not be taken: it fails
    /// closed.
    FailClosedTemplate,
    /// The audit log refused a record; its decision stands.
    AuditRefused,
    /// Policy denied the datagram.
    Denied,
    /// The host exchange failed.
    ExchangeFailed,
    /// The reply could not be built or parsed back.
    ResponseFailed,
    /// Writing the reply to the device failed.
    WriteFailed,
    /// The reply was written to the sandbox.
    Exchanged,
}

/// Which operation of a UDP datagram exchange the bridge waits on.
#[derive(Clone, Copy, Debug, PartialEq, Eq, Structural)]
pub enum UdpBridgePhase {
    Start,
    AwaitPacket,
    AwaitReadFailureAudit { send_side: bool },
    AwaitMalformedAudit,
    /// The packet parsed; `udp` and `template` say whether it is UDP and
    /// whether its payload and reply template could be taken.
    AwaitInboundAudit { udp: bool, template: bool },
    AwaitRejectionAudit { end: UdpBridgeEnd },
    AwaitDecision,
    AwaitExchange,
    AwaitFailureAudit { end: UdpBridgeEnd },
    AwaitResponseAudit,
    AwaitWrite,
    Done,
}

/// What the last operation reported.
#[derive(Clone, Copy, Debug, PartialEq, Eq, Structural)]
pub enum UdpBridgeEvent {
    Begin,
    NoPacket,
    ReadFailed { send_side: bool },
    Malformed,
    Parsed { udp: bool, template: bool },
    AuditRecorded,
    AuditRefused,
    Decided { denied: bool },
    Exchanged { response_ok: bool },
    ExchangeFailed,
    Written,
    WriteFailed,
}

/// The next operation of a UDP datagram exchange.
#[derive(Clone, Copy, Debug, PartialEq, Eq, Structural)]
pub enum UdpBridgeAction {
    ReadPacket,
    AuditReadFailure,
    AuditMalformed,
    AuditInbound,
    AuditRejection,
    Evaluate,
    Exchange,
    AuditExchangeFailure,
    AuditResponse,
    WriteResponse,
    AuditWriteFailure,
    Finish(UdpBridgeEnd),
}

/// One step of the UDP datagram exchange: read a packet; a read failure is
/// audited and reported; a malformed packet is audited and fails closed; a
/// parsed packet is audited, then refused (audited) unless it is UDP with a
/// usable reply template, then judged by policy; only an allowed datagram is
/// exchanged with the host; the reply is audited before it is written. An
/// unexpected event ends the exchange failed closed.
pub open spec fn udp_bridge_next(phase: UdpBridgePhase, event: UdpBridgeEvent) -> (
    UdpBridgePhase,
    UdpBridgeAction,
) {
    match (phase, event) {
        (UdpBridgePhase::Start, _) => (UdpBridgePhase::AwaitPacket, UdpBridgeAction::ReadPacket),
        (UdpBridgePhase::AwaitPacket, UdpBridgeEvent::NoPacket) => (
            UdpBridgePhase::Done,
            UdpBridgeAction::Finish(UdpBridgeEnd::NoPacket),
        ),
        (UdpBridgePhase::AwaitPacket, UdpBridgeEvent::ReadFailed { send_side }) => (
            UdpBridgePhase::AwaitReadFailureAudit { send_side },
            UdpBridgeAction::AuditReadFailure,
        ),
        (UdpBridgePhase::AwaitPacket, UdpBridgeEvent::Malformed) => (
            UdpBridgePhase::AwaitMalformedAudit,
            UdpBridgeAction::AuditMalformed,
        ),
        (UdpBridgePhase::AwaitPacket, UdpBridgeEvent::Parsed { udp, template }) => (
            UdpBridgePhase::AwaitInboundAudit { udp, template },
            UdpBridgeAction::AuditInbound,
        ),
        (UdpBridgePhase::AwaitPacket, _) => (
            UdpBridgePhase::Done,
            UdpBridgeAction::Finish(UdpBridgeEnd::FailClosedMalformed),
        ),
        (UdpBridgePhase::AwaitReadFailureAudit { send_side }, _) => (
            UdpBridgePhase::Done,
            UdpBridgeAction::Finish(UdpBridgeEnd::DeviceError { send_side }),
        ),
        (UdpBridgePhase::AwaitMalformedAudit, UdpBridgeEvent::AuditRecorded) => (
            UdpBridgePhase::Done,
            UdpBridgeAction::Finish(UdpBridgeEnd::FailClosedMalformed),
        ),
        (UdpBridgePhase::AwaitMalformedAudit, _) => (
            UdpBridgePhase::Done,
            UdpBridgeAction::Finish(UdpBridgeEnd::AuditRefused),
        ),
        (UdpBridgePhase::AwaitInboundAudit { udp, template }, UdpBridgeEvent::AuditRecorded) => {
            if !udp {
                (
                    UdpBridgePhase::AwaitRejectionAudit { end: UdpBridgeEnd::FailClosedUnsupported },
                    UdpBridgeAction::AuditRejection,
                )
            } else if !template {
                (
                    UdpBridgePhase::AwaitRejectionAudit { end: UdpBridgeEnd::FailClosedTemplate },
                    UdpBridgeAction::AuditRejection,
                )
            } else {
                (UdpBridgePhase::AwaitDecision, UdpBridgeAction::Evaluate)
            }
        },
        (UdpBridgePhase::AwaitInboundAudit { .. }, _) => (
            UdpBridgePhase::Done,
            UdpBridgeAction::Finish(UdpBridgeEnd::AuditRefused),
        ),
        (UdpBridgePhase::AwaitRejectionAudit { end }, _) => (
            UdpBridgePhase::Done,
            UdpBridgeAction::Finish(end),
        ),
        (UdpBridgePhase::AwaitDecision, UdpBridgeEvent::Decided { denied: false }) => (
            UdpBridgePhase::AwaitExchange,
            UdpBridgeAction::Exchange,
        ),
        (UdpBridgePhase::AwaitDecision, _) => (
            UdpBridgePhase::Done,
            UdpBridgeAction::Finish(UdpBridgeEnd::Denied),
        ),
        (UdpBridgePhase::AwaitExchange, UdpBridgeEvent::Exchanged { response_ok: true }) => (
            UdpBridgePhase::AwaitResponseAudit,
            UdpBridgeAction::AuditResponse,
        ),
        (UdpBridgePhase::AwaitExchange, UdpBridgeEvent::Exchanged { response_ok: false }) => (
            UdpBridgePhase::AwaitFailureAudit { end: UdpBridgeEnd::ResponseFailed },
            UdpBridgeAction::AuditExchangeFailure,
        ),
        (UdpBridgePhase::AwaitExchange, _) => (
            UdpBridgePhase::AwaitFailureAudit { end: UdpBridgeEnd::ExchangeFailed },
            UdpBridgeAction::AuditExchangeFailure,
        ),
        (UdpBridgePhase::AwaitFailureAudit { end }, _) => (
            UdpBridgePhase::Done,
            UdpBridgeAction::Finish(end),
        ),
        (UdpBridgePhase::AwaitResponseAudit, UdpBridgeEvent::AuditRecorded) => (
            UdpBridgePhase::AwaitWrite,
            UdpBridgeAction::WriteResponse,
        ),
        (UdpBridgePhase::AwaitResponseAudit, _) => (
            UdpBridgePhase::Done,
            UdpBridgeAction::Finish(UdpBridgeEnd::AuditRefused),
        ),
        (UdpBridgePhase::AwaitWrite, UdpBridgeEvent::Written) => (
            UdpBridgePhase::Done,
            UdpBridgeAction::Finish(UdpBridgeEnd::Exchanged),
        ),
        (UdpBridgePhase::AwaitWrite, _) => (
            UdpBridgePhase::AwaitFailureAudit { end: UdpBridgeEnd::WriteFailed },
            UdpBridgeAction::AuditWriteFailure,
        ),
        (UdpBridgePhase::Done, _) => (
            UdpBridgePhase::Done,
            UdpBridgeAction::Finish(UdpBridgeEnd::FailClosedMalformed),
        ),
    }
}

/// One step of the UDP datagram exchange (see `udp_bridge_next`). The host
/// is only asked to exchange a datagram whose inbound audit was recorded,
/// that is UDP with a usable reply template, and that policy allowed; the
/// reply is only written once its audit was recorded.
pub fn udp_bridge_step(phase: UdpBridgePhase, event: UdpBridgeEvent) -> (step: (
    UdpBridgePhase,
    UdpBridgeAction,
))
    requires
        !(phase is Done),
    ensures
        step == udp_bridge_next(phase, event),
        step.1 is Finish <==> step.0 is Done,
        step.1 is Exchange ==> phase == UdpBridgePhase::AwaitDecision && event
            == (UdpBridgeEvent::Decided { denied: false }),
        step.0 is AwaitDecision ==> phase == (UdpBridgePhase::AwaitInboundAudit {
            udp: true,
            template: true,
        }) && event is AuditRecorded,
        step.1 is WriteResponse ==> phase is AwaitResponseAudit && event is AuditRecorded,
        step.0 is AwaitResponseAudit ==> phase is AwaitExchange && event == (
        UdpBridgeEvent::Exchanged { response_ok: true }),
        event is Malformed || event is AuditRefused || event == (UdpBridgeEvent::Decided {
            denied: true,
        }) ==> !(step.1 is Exchange) && !(step.1 is WriteResponse) && !(step.1 is Evaluate),
{
    match (phase, event) {
        (UdpBridgePhase::Start, _) => (UdpBridgePhase::AwaitPacket, UdpBridgeAction::ReadPacket),
        (UdpBridgePhase::AwaitPacket, UdpBridgeEvent::NoPacket) => (
            UdpBridgePhase::Done,
            UdpBridgeAction::Finish(UdpBridgeEnd::NoPacket),
        ),
        (UdpBridgePhase::AwaitPacket, UdpBridgeEvent::ReadFailed { send_side }) => (
            UdpBridgePhase::AwaitReadFailureAudit { send_side },
            UdpBridgeAction::AuditReadFailure,
        ),
        (UdpBridgePhase::AwaitPacket, UdpBridgeEvent::Malformed) => (
            UdpBridgePhase::AwaitMalformedAudit,
            UdpBridgeAction::AuditMalformed,
        ),
        (UdpBridgePhase::AwaitPacket, UdpBridgeEvent::Parsed { udp, template }) => (
            UdpBridgePhase::AwaitInboundAudit { udp, template },
            UdpBridgeAction::AuditInbound,
        ),
        (UdpBridgePhase::AwaitPacket, _) => (
            UdpBridgePhase::Done,
            UdpBridgeAction::Finish(UdpBridgeEnd::FailClosedMalformed),
        ),
        (UdpBridgePhase::AwaitReadFailureAudit { send_side }, _) => (
            UdpBridgePhase::Done,
            UdpBridgeAction::Finish(UdpBridgeEnd::DeviceError { send_side }),
        ),
        (UdpBridgePhase::AwaitMalformedAudit, UdpBridgeEvent::AuditRecorded) => (
            UdpBridgePhase::Done,
            UdpBridgeAction::Finish(UdpBridgeEnd::FailClosedMalformed),
        ),
        (UdpBridgePhase::AwaitMalformedAudit, _) => (
            UdpBridgePhase::Done,
            UdpBridgeAction::Finish(UdpBridgeEnd::AuditRefused),
        ),
        (UdpBridgePhase::AwaitInboundAudit { udp, template }, UdpBridgeEvent::AuditRecorded) => {
            if !udp {
                (
                    UdpBridgePhase::AwaitRejectionAudit { end: UdpBridgeEnd::FailClosedUnsupported },
                    UdpBridgeAction::AuditRejection,
                )
            } else if !template {
                (
                    UdpBridgePhase::AwaitRejectionAudit { end: UdpBridgeEnd::FailClosedTemplate },
                    UdpBridgeAction::AuditRejection,
                )
            } else {
                (UdpBridgePhase::AwaitDecision, UdpBridgeAction::Evaluate)
            }
        },
        (UdpBridgePhase::AwaitInboundAudit { .. }, _) => (
            UdpBridgePhase::Done,
            UdpBridgeAction::Finish(UdpBridgeEnd::AuditRefused),
        ),
        (UdpBridgePhase::AwaitRejectionAudit { end }, _) => (
            UdpBridgePhase::Done,
            UdpBridgeAction::Finish(end),
        ),
        (UdpBridgePhase::AwaitDecision, UdpBridgeEvent::Decided { denied: false }) => (
            UdpBridgePhase::AwaitExchange,
            UdpBridgeAction::Exchange,
        ),
        (UdpBridgePhase::AwaitDecision, _) => (
            UdpBridgePhase::Done,
            UdpBridgeAction::Finish(UdpBridgeEnd::Denied),
        ),
        (UdpBridgePhase::AwaitExchange, UdpBridgeEvent::Exchanged { response_ok: true }) => (
            UdpBridgePhase::AwaitResponseAudit,
            UdpBridgeAction::AuditResponse,
        ),
        (UdpBridgePhase::AwaitExchange, UdpBridgeEvent::Exchanged { response_ok: false }) => (
            UdpBridgePhase::AwaitFailureAudit { end: UdpBridgeEnd::ResponseFailed },
            UdpBridgeAction::AuditExchangeFailure,
        ),
        (UdpBridgePhase::AwaitExchange, _) => (
            UdpBridgePhase::AwaitFailureAudit { end: UdpBridgeEnd::ExchangeFailed },
            UdpBridgeAction::AuditExchangeFailure,
        ),
        (UdpBridgePhase::AwaitFailureAudit { end }, _) => (
            UdpBridgePhase::Done,
            UdpBridgeAction::Finish(end),
        ),
        (UdpBridgePhase::AwaitResponseAudit, UdpBridgeEvent::AuditRecorded) => (
            UdpBridgePhase::AwaitWrite,
            UdpBridgeAction::WriteResponse,
        ),
        (UdpBridgePhase::AwaitResponseAudit, _) => (
            UdpBridgePhase::Done,
            UdpBridgeAction::Finish(UdpBridgeEnd::AuditRefused),
        ),
        (UdpBridgePhase::AwaitWrite, UdpBridgeEvent::Written) => (
            UdpBridgePhase::Done,
            UdpBridgeAction::Finish(UdpBridgeEnd::Exchanged),
        ),
        (UdpBridgePhase::AwaitWrite, _) => (
            UdpBridgePhase::AwaitFailureAudit { end: UdpBridgeEnd::WriteFailed },
            UdpBridgeAction::AuditWriteFailure,
        ),
        (UdpBridgePhase::Done, _) => (
            UdpBridgePhase::Done,
            UdpBridgeAction::Finish(UdpBridgeEnd::FailClosedMalformed),
        ),
    }
}

// ---------------------------------------------------------------------------
// One packet from the TUN device through the stack, and the stack's output
// back to the device.

/// Where the handling of one TUN packet (or one ready-task poll) ends;
/// `inbound` says whether a sandbox packet was passed to the stack, and
/// `written` how many stack packets reached the device.
#[derive(Clone, Copy, Debug, PartialEq, Eq, Structural)]
pub enum TunBridgeEnd {
    NoPacket,
    ReadError,
    /// A packet did not parse: it fails closed.
    FailClosed { inbound: bool, written: usize },
    /// The audit log refused a record; its decision stands.
    AuditRefused { inbound: bool, written: usize },
    /// Policy denied the sandbox packet; it never reached the stack.
    Denied,
    /// Every packet the stack emitted was written.
    Completed { inbound: bool, written: usize },
    /// Writing a stack packet to the device failed.
    WriteError { written: usize },
}

/// Which operation of the TUN bridge the bridge waits on. While stack
/// output is written, `written` packets are done and `remaining` are left.
#[derive(Clone, Copy, Debug, PartialEq, Eq, Structural)]
pub enum TunBridgePhase {
    /// Handle the next packet of the device.
    StartPacket,
    /// Poll the stack for a ready timer, without a sandbox packet.
    StartReadyPoll,
    AwaitPacket,
    AwaitReadFailureAudit,
    AwaitMalformedAudit { inbound: bool, written: usize },
    AwaitInboundAudit,
    AwaitDecision,
    AwaitPoll { inbound: bool },
    AwaitOutboundParse { inbound: bool, written: usize, remaining: usize },
    AwaitOutboundAudit { inbound: bool, written: usize, remaining: usize },
    AwaitWrite { inbound: bool, written: usize, remaining: usize },
    AwaitWriteFailureAudit { written: usize },
    Done,
}

/// What the last operation reported.
#[derive(Clone, Copy, Debug, PartialEq, Eq, Structural)]
pub enum TunBridgeEvent {
    Begin,
    NoPacket,
    ReadFailed,
    Malformed,
    Parsed,
    AuditRecorded,
    AuditRefused,
    Decided { denied: bool },
    Polled { emitted: usize },
    Written,
    WriteFailed,
}

/// The next operation of the TUN bridge.
#[derive(Clone, Copy, Debug, PartialEq, Eq, Structural)]
pub enum TunBridgeAction {
    ReadPacket,
    AuditReadFailure,
    AuditMalformed,
    AuditInbound,
    Evaluate,
    /// Pass the sandbox packet to the stack and poll it.
    InjectAndPoll,
    /// Poll the stack without a sandbox packet.
    PollStack,
    /// Parse the next packet the stack emitted.
    ParseOutbound,
    AuditOutbound,
    /// Write the parsed and audited stack packet to the device.
    WritePacket,
    AuditWriteFailure,
    Finish(TunBridgeEnd),
}

/// The counts of a phase fit: packets are left to write while writing, and
/// written and left together fit in a `usize`.
pub open spec fn tun_phase_wf(phase: TunBridgePhase) -> bool {
    match phase {
        TunBridgePhase::AwaitOutboundParse { written, remaining, .. } => remaining >= 1 && written
            + remaining <= usize::MAX,
        TunBridgePhase::AwaitOutboundAudit { written, remaining, .. } => remaining >= 1 && written
            + remaining <= usize::MAX,
        TunBridgePhase::AwaitWrite { written, remaining, .. } => remaining >= 1 && written
            + remaining <= usize::MAX,
        _ => true,
    }
}

/// One step of the TUN bridge: read a packet (a read failure is audited and
/// reported); a malformed packet is audited and fails closed; a parsed
/// packet is audited, then judged by policy, and only an allowed packet is
/// passed to the stack; each packet the stack then emits is parsed, audited
/// and only then written to the device, until all are written or one step
/// fails. A ready-task poll starts at the poll.
pub open spec fn tun_bridge_next(phase: TunBridgePhase, event: TunBridgeEvent) -> (
    TunBridgePhase,
    TunBridgeAction,
) {
    match (phase, event) {
        (TunBridgePhase::StartPacket, _) => (TunBridgePhase::AwaitPacket, TunBridgeAction::ReadPacket),
        (TunBridgePhase::StartReadyPoll, _) => (
            TunBridgePhase::AwaitPoll { inbound: false },
            TunBridgeAction::PollStack,
        ),
        (TunBridgePhase::AwaitPacket, TunBridgeEvent::NoPacket) => (
            TunBridgePhase::Done,
            TunBridgeAction::Finish(TunBridgeEnd::NoPacket),
        ),
        (TunBridgePhase::AwaitPacket, TunBridgeEvent::ReadFailed) => (
            TunBridgePhase::AwaitReadFailureAudit,
            TunBridgeAction::AuditReadFailure,
        ),
        (TunBridgePhase::AwaitPacket, TunBridgeEvent::Malformed) => (
            TunBridgePhase::AwaitMalformedAudit { inbound: false, written: 0 },
            TunBridgeAction::AuditMalformed,
        ),
        (TunBridgePhase::AwaitPacket, TunBridgeEvent::Parsed) => (
            TunBridgePhase::AwaitInboundAudit,
            TunBridgeAction::AuditInbound,
        ),
        (TunBridgePhase::AwaitPacket, _) => (
            TunBridgePhase::Done,
            TunBridgeAction::Finish(TunBridgeEnd::FailClosed { inbound: false, written: 0 }),
        ),
        (TunBridgePhase::AwaitReadFailureAudit, _) => (
            TunBridgePhase::Done,
            TunBridgeAction::Finish(TunBridgeEnd::ReadError),
        ),
        (TunBridgePhase::AwaitMalformedAudit { inbound, written }, TunBridgeEvent::AuditRecorded) => (
            TunBridgePhase::Done,
            TunBridgeAction::Finish(TunBridgeEnd::FailClosed { inbound, written }),
        ),
        (TunBridgePhase::AwaitMalformedAudit { inbound, written }, _) => (
            TunBridgePhase::Done,
            TunBridgeAction::Finish(TunBridgeEnd::AuditRefused { inbound, written }),
        ),
        (TunBridgePhase::AwaitInboundAudit, TunBridgeEvent::AuditRecorded) => (
            TunBridgePhase::AwaitDecision,
            TunBridgeAction::Evaluate,
        ),
        (TunBridgePhase::AwaitInboundAudit, _) => (
            TunBridgePhase::Done,
            TunBridgeAction::Finish(TunBridgeEnd::AuditRefused { inbound: false, written: 0 }),
        ),
        (TunBridgePhase::AwaitDecision, TunBridgeEvent::Decided { denied: false }) => (
            TunBridgePhase::AwaitPoll { inbound: true },
            TunBridgeAction::InjectAndPoll,
        ),
        (TunBridgePhase::AwaitDecision, _) => (
            TunBridgePhase::Done,
            TunBridgeAction::Finish(TunBridgeEnd::Denied),
        ),
        (TunBridgePhase::AwaitPoll { inbound }, TunBridgeEvent::Polled { emitted }) => {
            if emitted == 0 {
                (
                    TunBridgePhase::Done,
                    TunBridgeAction::Finish(TunBridgeEnd::Completed { inbound, written: 0 }),
                )
            } else {
                (
                    TunBridgePhase::AwaitOutboundParse { inbound, written: 0, remaining: emitted },
                    TunBridgeAction::ParseOutbound,
                )
            }
        },
        (TunBridgePhase::AwaitPoll { inbound }, _) => (
            TunBridgePhase::Done,
            TunBridgeAction::Finish(TunBridgeEnd::Completed { inbound, written: 0 }),
        ),
        (
            TunBridgePhase::AwaitOutboundParse { inbound, written, remaining },
            TunBridgeEvent::Parsed,
        ) => (
            TunBridgePhase::AwaitOutboundAudit { inbound, written, remaining },
            TunBridgeAction::AuditOutbound,
        ),
        (TunBridgePhase::AwaitOutboundParse { inbound, written, .. }, _) => (
            TunBridgePhase::AwaitMalformedAudit { inbound, written },
            TunBridgeAction::AuditMalformed,
        ),
        (
            TunBridgePhase::AwaitOutboundAudit { inbound, written, remaining },
            TunBridgeEvent::AuditRecorded,
        ) => (
            TunBridgePhase::AwaitWrite { inbound, written, remaining },
            TunBridgeAction::WritePacket,
        ),
        (TunBridgePhase::AwaitOutboundAudit { inbound, written, .. }, _) => (
            TunBridgePhase::Done,
            TunBridgeAction::Finish(TunBridgeEnd::AuditRefused { inbound, written }),
        ),
        (TunBridgePhase::AwaitWrite { inbound, written, remaining }, TunBridgeEvent::Written) => {
            if remaining == 1 {
                (
                    TunBridgePhase::Done,
                    TunBridgeAction::Finish(TunBridgeEnd::Completed { inbound, written: (written + 1) as usize }),
                )
            } else {
                (
                    TunBridgePhase::AwaitOutboundParse {
                        inbound,
                        written: (written + 1) as usize,
                        remaining: (remaining - 1) as usize,
                    },
                    TunBridgeAction::ParseOutbound,
                )
            }
        },
        (TunBridgePhase::AwaitWrite { written, .. }, _) => (
            TunBridgePhase::AwaitWriteFailureAudit { written },
            TunBridgeAction::AuditWriteFailure,
        ),
        (TunBridgePhase::AwaitWriteFailureAudit { written }, _) => (
            TunBridgePhase::Done,
            TunBridgeAction::Finish(TunBridgeEnd::WriteError { written }),
        ),
        (TunBridgePhase::Done, _) => (
            TunBridgePhase::Done,
            TunBridgeAction::Finish(TunBridgeEnd::FailClosed { inbound: false, written: 0 }),
        ),
    }
}

/// One step of the TUN bridge (see `tun_bridge_next`). A sandbox packet
/// reaches the stack only after its audit was recorded and policy allowed
/// it; a stack packet reaches the device only after it parsed and its audit
/// was recorded.
pub fn tun_bridge_step(phase: TunBridgePhase, event: TunBridgeEvent) -> (step: (
    TunBridgePhase,
    TunBridgeAction,
))
    requires
        !(phase is Done),
        tun_phase_wf(phase),
    ensures
        step == tun_bridge_next(phase, event),
        tun_phase_wf(step.0),
        step.1 is Finish <==> step.0 is Done,
        step.1 is InjectAndPoll ==> phase == TunBridgePhase::AwaitDecision && event
            == (TunBridgeEvent::Decided { denied: false }),
        step.0 is AwaitDecision ==> phase == TunBridgePhase::AwaitInboundAudit && event
            is AuditRecorded,
        step.0 is AwaitInboundAudit ==> phase == TunBridgePhase::AwaitPacket && event is Parsed,
        step.1 is WritePacket ==> phase is AwaitOutboundAudit && event is AuditRecorded,
        step.0 is AwaitOutboundAudit ==> phase is AwaitOutboundParse && event is Parsed,
        event is Malformed || event is AuditRefused || event == (TunBridgeEvent::Decided {
            denied: true,
        }) ==> !(step.1 is InjectAndPoll) && !(step.1 is WritePacket) && !(step.1 is Evaluate),
        step.1 == TunBridgeAction::Finish(TunBridgeEnd::Denied) ==> phase
            == TunBridgePhase::AwaitDecision && !(event == (TunBridgeEvent::Decided {
            denied: false,
        })),
{
    match (phase, event) {
        (TunBridgePhase::StartPacket, _) => (TunBridgePhase::AwaitPacket, TunBridgeAction::ReadPacket),
        (TunBridgePhase::StartReadyPoll, _) => (
            TunBridgePhase::AwaitPoll { inbound: false },
            TunBridgeAction::PollStack,
        ),
        (TunBridgePhase::AwaitPacket, TunBridgeEvent::NoPacket) => (
            TunBridgePhase::Done,
            TunBridgeAction::Finish(TunBridgeEnd::NoPacket),
        ),
        (TunBridgePhase::AwaitPacket, TunBridgeEvent::ReadFailed) => (
            TunBridgePhase::AwaitReadFailureAudit,
            TunBridgeAction::AuditReadFailure,
        ),
        (TunBridgePhase::AwaitPacket, TunBridgeEvent::Malformed) => (
            TunBridgePhase::AwaitMalformedAudit { inbound: false, written: 0 },
            TunBridgeAction::AuditMalformed,
        ),
        (TunBridgePhase::AwaitPacket, TunBridgeEvent::Parsed) => (
            TunBridgePhase::AwaitInboundAudit,
            TunBridgeAction::AuditInbound,
        ),
        (TunBridgePhase::AwaitPacket, _) => (
            TunBridgePhase::Done,
            TunBridgeAction::Finish(TunBridgeEnd::FailClosed { inbound: false, written: 0 }),
        ),
        (TunBridgePhase::AwaitReadFailureAudit, _) => (
            TunBridgePhase::Done,
            TunBridgeAction::Finish(TunBridgeEnd::ReadError),
        ),
        (TunBridgePhase::AwaitMalformedAudit { inbound, written }, TunBridgeEvent::AuditRecorded) => (
            TunBridgePhase::Done,
            TunBridgeAction::Finish(TunBridgeEnd::FailClosed { inbound, written }),
        ),
        (TunBridgePhase::AwaitMalformedAudit { inbound, written }, _) => (
            TunBridgePhase::Done,
            TunBridgeAction::Finish(TunBridgeEnd::AuditRefused { inbound, written }),
        ),
        (TunBridgePhase::AwaitInboundAudit, TunBridgeEvent::AuditRecorded) => (
            TunBridgePhase::AwaitDecision,
            TunBridgeAction::Evaluate,
        ),
        (TunBridgePhase::AwaitInboundAudit, _) => (
            TunBridgePhase::Done,
            TunBridgeAction::Finish(TunBridgeEnd::AuditRefused { inbound: false, written: 0 }),
        ),
        (TunBridgePhase::AwaitDecision, TunBridgeEvent::Decided { denied: false }) => (
            TunBridgePhase::AwaitPoll { inbound: true },
            TunBridgeAction::InjectAndPoll,
        ),
        (TunBridgePhase::AwaitDecision, _) => (
            TunBridgePhase::Done,
            TunBridgeAction::Finish(TunBridgeEnd::Denied),
        ),
        (TunBridgePhase::AwaitPoll { inbound }, TunBridgeEvent::Polled { emitted }) => {
            if emitted == 0 {
                (
                    TunBridgePhase::Done,
                    TunBridgeAction::Finish(TunBridgeEnd::Completed { inbound, written: 0 }),
                )
            } else {
                (
                    TunBridgePhase::AwaitOutboundParse { inbound, written: 0, remaining: emitted },
                    TunBridgeAction::ParseOutbound,
                )
            }
        },
        (TunBridgePhase::AwaitPoll { inbound }, _) => (
            TunBridgePhase::Done,
            TunBridgeAction::Finish(TunBridgeEnd::Completed { inbound, written: 0 }),
        ),
        (
            TunBridgePhase::AwaitOutboundParse { inbound, written, remaining },
            TunBridgeEvent::Parsed,
        ) => (
            TunBridgePhase::AwaitOutboundAudit { inbound, written, remaining },
            TunBridgeAction::AuditOutbound,
        ),
        (TunBridgePhase::AwaitOutboundParse { inbound, written, .. }, _) => (
            TunBridgePhase::AwaitMalformedAudit { inbound, written },
            TunBridgeAction::AuditMalformed,
        ),
        (
            TunBridgePhase::AwaitOutboundAudit { inbound, written, remaining },
            TunBridgeEvent::AuditRecorded,
        ) => (
            TunBridgePhase::AwaitWrite { inbound, written, remaining },
            TunBridgeAction::WritePacket,
        ),
        (TunBridgePhase::AwaitOutboundAudit { inbound, written, .. }, _) => (
            TunBridgePhase::Done,
            TunBridgeAction::Finish(TunBridgeEnd::AuditRefused { inbound, written }),
        ),
        (TunBridgePhase::AwaitWrite { inbound, written, remaining }, TunBridgeEvent::Written) => {
            if remaining == 1 {
                (
                    TunBridgePhase::Done,
                    TunBridgeAction::Finish(TunBridgeEnd::Completed { inbound, written: written + 1 }),
                )
            } else {
                (
                    TunBridgePhase::AwaitOutboundParse {
                        inbound,
                        written: written + 1,
                        remaining: remaining - 1,
                    },
                    TunBridgeAction::ParseOutbound,
                )
            }
        },
        (TunBridgePhase::AwaitWrite { written, .. }, _) => (
            TunBridgePhase::AwaitWriteFailureAudit { written },
            TunBridgeAction::AuditWriteFailure,
        ),
        (TunBridgePhase::AwaitWriteFailureAudit { written }, _) => (
            TunBridgePhase::Done,
            TunBridgeAction::Finish(TunBridgeEnd::WriteError { written }),
        ),
        (TunBridgePhase::Done, _) => (
            TunBridgePhase::Done,
            TunBridgeAction::Finish(TunBridgeEnd::FailClosed { inbound: false, written: 0 }),
        ),
    }
}


// ---------------------------------------------------------------------------
// The first TCP stream the sandbox opened through the stack, bridged to a
// host connection.

/// Where bridging the first TCP stream ends; `written` counts the response
/// packets that reached the device.
#[derive(Clone, Copy, Debug, PartialEq, Eq, Structural)]
pub enum StreamBridgeEnd {
    /// The sandbox sent no bytes on the stream; nothing was asked of policy
    /// or the host.
    NothingToSend,
    /// The stack knows no endpoints for the stream.
    NoEndpoints,
    /// Policy denied the connection; the host was not contacted.
    Denied,
    /// Connecting to the host or exchanging bytes with it failed.
    EgressFailed,
    /// The stack could not send the host's response into the stream.
    ResponseFailed,
    /// A packet the stack emitted did not parse.
    MalformedOutput,
    /// The audit log refused a response packet; its decision stands.
    AuditRefused { written: u64 },
    /// Writing a response packet to the device failed.
    WriteFailed,
    /// The audit log refused the closing record; its decision stands.
    CloseRefused { written: u64 },
    /// The exchange completed and was audited.
    Completed { written: u64 },
    /// An event that the phase does not expect: the bridge fails closed.
    FailClosed,
}

/// Which operation of the stream bridge the bridge waits on. While the
/// response is written, `written` packets are done and `remaining` left.
#[derive(Clone, Copy, Debug, PartialEq, Eq, Structural)]
pub enum StreamBridgePhase {
    Start,
    AwaitDrain,
    AwaitEndpoints,
    AwaitDecision,
    AwaitExchange,
    AwaitEgressFailureAudit,
    AwaitResponse,
    AwaitParse { written: u64, remaining: u64 },
    AwaitOutboundAudit { written: u64, remaining: u64 },
    AwaitWrite { written: u64, remaining: u64 },
    AwaitWriteFailureAudit,
    AwaitCloseAudit { written: u64 },
    Done,
}

/// What the last operation reported.
#[derive(Clone, Copy, Debug, PartialEq, Eq, Structural)]
pub enum StreamBridgeEvent {
    Begin,
    Drained { empty: bool },
    Endpoints { found: bool },
    Decided { denied: bool },
    Exchanged { ok: bool },
    ResponseSent { emitted: u64 },
    ResponseFailed,
    Parsed,
    Malformed,
    AuditRecorded,
    AuditRefused,
    Written,
    WriteFailed,
}

/// The next operation of the stream bridge.
#[derive(Clone, Copy, Debug, PartialEq, Eq, Structural)]
pub enum StreamBridgeAction {
    /// Take what the sandbox sent on the stream.
    DrainSandbox,
    /// Look up the stream's sandbox and local endpoints.
    ResolveEndpoints,
    /// Ask policy about the connection.
    Evaluate,
    /// Connect to the host destination and exchange the sandbox's bytes.
    ConnectAndExchange,
    AuditEgressFailure,
    /// Send the host's response into the stream.
    SendResponse,
    ParseOutbound,
    AuditOutbound,
    /// Write the parsed and audited response packet to the device.
    WritePacket,
    AuditWriteFailure,
    AuditClose,
    Finish(StreamBridgeEnd),
}

/// The response-writing phases count the packets left, at least one, and
/// the count stays within `u64`.
pub open spec fn stream_phase_wf(phase: StreamBridgePhase) -> bool {
    match phase {
        StreamBridgePhase::AwaitParse { written, remaining } => remaining >= 1 && written
            + remaining <= u64::MAX,
        StreamBridgePhase::AwaitOutboundAudit { written, remaining } => remaining >= 1 && written
            + remaining <= u64::MAX,
        StreamBridgePhase::AwaitWrite { written, remaining } => remaining >= 1 && written
            + remaining <= u64::MAX,
        _ => true,
    }
}

/// One step of bridging the first TCP stream: take the sandbox's bytes, and
/// end there when there are none; look up the stream's endpoints; ask
/// policy, and contact the host only for an allowed connection; a failed
/// exchange is audited; the host's response is sent into the stream and
/// each packet the stack emits is parsed, audited and only then written to
/// the device; the finished exchange is audited. An unexpected event fails
/// closed.
pub open spec fn stream_bridge_next(phase: StreamBridgePhase, event: StreamBridgeEvent) -> (
    StreamBridgePhase,
    StreamBridgeAction,
) {
    match (phase, event) {
        (StreamBridgePhase::Start, _) => (StreamBridgePhase::AwaitDrain, StreamBridgeAction::DrainSandbox),
        (StreamBridgePhase::AwaitDrain, StreamBridgeEvent::Drained { empty: true }) => (
            StreamBridgePhase::Done,
            StreamBridgeAction::Finish(StreamBridgeEnd::NothingToSend),
        ),
        (StreamBridgePhase::AwaitDrain, StreamBridgeEvent::Drained { empty: false }) => (
            StreamBridgePhase::AwaitEndpoints,
            StreamBridgeAction::ResolveEndpoints,
        ),
        (StreamBridgePhase::AwaitEndpoints, StreamBridgeEvent::Endpoints { found: true }) => (
            StreamBridgePhase::AwaitDecision,
            StreamBridgeAction::Evaluate,
        ),
        (StreamBridgePhase::AwaitEndpoints, StreamBridgeEvent::Endpoints { found: false }) => (
            StreamBridgePhase::Done,
            StreamBridgeAction::Finish(StreamBridgeEnd::NoEndpoints),
        ),
        (StreamBridgePhase::AwaitDecision, StreamBridgeEvent::Decided { denied: false }) => (
            StreamBridgePhase::AwaitExchange,
            StreamBridgeAction::ConnectAndExchange,
        ),
        (StreamBridgePhase::AwaitDecision, StreamBridgeEvent::Decided { denied: true }) => (
            StreamBridgePhase::Done,
            StreamBridgeAction::Finish(StreamBridgeEnd::Denied),
        ),
        (StreamBridgePhase::AwaitExchange, StreamBridgeEvent::Exchanged { ok: true }) => (
            StreamBridgePhase::AwaitResponse,
            StreamBridgeAction::SendResponse,
        ),
        (StreamBridgePhase::AwaitExchange, StreamBridgeEvent::Exchanged { ok: false }) => (
            StreamBridgePhase::AwaitEgressFailureAudit,
            StreamBridgeAction::AuditEgressFailure,
        ),
        (StreamBridgePhase::AwaitEgressFailureAudit, _) => (
            StreamBridgePhase::Done,
            StreamBridgeAction::Finish(StreamBridgeEnd::EgressFailed),
        ),
        (StreamBridgePhase::AwaitResponse, StreamBridgeEvent::ResponseSent { emitted }) => {
            if emitted == 0 {
                (StreamBridgePhase::AwaitCloseAudit { written: 0 }, StreamBridgeAction::AuditClose)
            } else {
                (
                    StreamBridgePhase::AwaitParse { written: 0, remaining: emitted },
                    StreamBridgeAction::ParseOutbound,
                )
            }
        },
        (StreamBridgePhase::AwaitResponse, StreamBridgeEvent::ResponseFailed) => (
            StreamBridgePhase::Done,
            StreamBridgeAction::Finish(StreamBridgeEnd::ResponseFailed),
        ),
        (StreamBridgePhase::AwaitParse { written, remaining }, StreamBridgeEvent::Parsed) => (
            StreamBridgePhase::AwaitOutboundAudit { written, remaining },
            StreamBridgeAction::AuditOutbound,
        ),
        (StreamBridgePhase::AwaitParse { .. }, _) => (
            StreamBridgePhase::Done,
            StreamBridgeAction::Finish(StreamBridgeEnd::MalformedOutput),
        ),
        (
            StreamBridgePhase::AwaitOutboundAudit { written, remaining },
            StreamBridgeEvent::AuditRecorded,
        ) => (StreamBridgePhase::AwaitWrite { written, remaining }, StreamBridgeAction::WritePacket),
        (StreamBridgePhase::AwaitOutboundAudit { written, .. }, _) => (
            StreamBridgePhase::Done,
            StreamBridgeAction::Finish(StreamBridgeEnd::AuditRefused { written }),
        ),
        (StreamBridgePhase::AwaitWrite { written, remaining }, StreamBridgeEvent::Written) => {
            if remaining <= 1 {
                (
                    StreamBridgePhase::AwaitCloseAudit { written: (written + 1) as u64 },
                    StreamBridgeAction::AuditClose,
                )
            } else {
                (
                    StreamBridgePhase::AwaitParse {
                        written: (written + 1) as u64,
                        remaining: (remaining - 1) as u64,
                    },
                    StreamBridgeAction::ParseOutbound,
                )
            }
        },
        (StreamBridgePhase::AwaitWrite { .. }, _) => (
            StreamBridgePhase::AwaitWriteFailureAudit,
            StreamBridgeAction::AuditWriteFailure,
        ),
        (StreamBridgePhase::AwaitWriteFailureAudit, _) => (
            StreamBridgePhase::Done,
            StreamBridgeAction::Finish(StreamBridgeEnd::WriteFailed),
        ),
        (StreamBridgePhase::AwaitCloseAudit { written }, StreamBridgeEvent::AuditRecorded) => (
            StreamBridgePhase::Done,
            StreamBridgeAction::Finish(StreamBridgeEnd::Completed { written }),
        ),
        (StreamBridgePhase::AwaitCloseAudit { written }, _) => (
            StreamBridgePhase::Done,
            StreamBridgeAction::Finish(StreamBridgeEnd::CloseRefused { written }),
        ),
        _ => (StreamBridgePhase::Done, StreamBridgeAction::Finish(StreamBridgeEnd::FailClosed)),
    }
}

/// One step of bridging the first TCP stream (see `stream_bridge_next`).
/// The host is only contacted after the sandbox sent bytes, the endpoints
/// were found and policy allowed the connection; a response packet is only
/// written once it parsed and its audit was recorded.
pub fn stream_bridge_step(phase: StreamBridgePhase, event: StreamBridgeEvent) -> (step: (
    StreamBridgePhase,
    StreamBridgeAction,
))
    requires
        !(phase is Done),
        stream_phase_wf(phase),
    ensures
        step == stream_bridge_next(phase, event),
        stream_phase_wf(step.0),
        step.1 is Finish <==> step.0 is Done,
        step.1 is ConnectAndExchange ==> phase == StreamBridgePhase::AwaitDecision && event
            == (StreamBridgeEvent::Decided { denied: false }),
        step.0 is AwaitDecision ==> phase == StreamBridgePhase::AwaitEndpoints && event
            == (StreamBridgeEvent::Endpoints { found: true }),
        step.0 is AwaitEndpoints ==> phase == StreamBridgePhase::AwaitDrain && event
            == (StreamBridgeEvent::Drained { empty: false }),
        step.1 is WritePacket ==> phase is AwaitOutboundAudit && event is AuditRecorded,
        step.0 is AwaitOutboundAudit ==> phase is AwaitParse && event is Parsed,
        event == (StreamBridgeEvent::Decided { denied: true }) || event is AuditRefused
            || event is Malformed || event == (StreamBridgeEvent::Drained { empty: true })
            ==> !(step.1 is ConnectAndExchange) && !(step.1 is WritePacket)
            && !(step.1 is SendResponse),
{
    match (phase, event) {
        (StreamBridgePhase::Start, _) => (StreamBridgePhase::AwaitDrain, StreamBridgeAction::DrainSandbox),
        (StreamBridgePhase::AwaitDrain, StreamBridgeEvent::Drained { empty: true }) => (
            StreamBridgePhase::Done,
            StreamBridgeAction::Finish(StreamBridgeEnd::NothingToSend),
        ),
        (StreamBridgePhase::AwaitDrain, StreamBridgeEvent::Drained { empty: false }) => (
            StreamBridgePhase::AwaitEndpoints,
            StreamBridgeAction::ResolveEndpoints,
        ),
        (StreamBridgePhase::AwaitEndpoints, StreamBridgeEvent::Endpoints { found: true }) => (
            StreamBridgePhase::AwaitDecision,
            StreamBridgeAction::Evaluate,
        ),
        (StreamBridgePhase::AwaitEndpoints, StreamBridgeEvent::Endpoints { found: false }) => (
            StreamBridgePhase::Done,
            StreamBridgeAction::Finish(StreamBridgeEnd::NoEndpoints),
        ),
        (StreamBridgePhase::AwaitDecision, StreamBridgeEvent::Decided { denied: false }) => (
            StreamBridgePhase::AwaitExchange,
            StreamBridgeAction::ConnectAndExchange,
        ),
        (StreamBridgePhase::AwaitDecision, StreamBridgeEvent::Decided { denied: true }) => (
            StreamBridgePhase::Done,
            StreamBridgeAction::Finish(StreamBridgeEnd::Denied),
        ),
        (StreamBridgePhase::AwaitExchange, StreamBridgeEvent::Exchanged { ok: true }) => (
            StreamBridgePhase::AwaitResponse,
            StreamBridgeAction::SendResponse,
        ),
        (StreamBridgePhase::AwaitExchange, StreamBridgeEvent::Exchanged { ok: false }) => (
            StreamBridgePhase::AwaitEgressFailureAudit,
            StreamBridgeAction::AuditEgressFailure,
        ),
        (StreamBridgePhase::AwaitEgressFailureAudit, _) => (
            StreamBridgePhase::Done,
            StreamBridgeAction::Finish(StreamBridgeEnd::EgressFailed),
        ),
        (StreamBridgePhase::AwaitResponse, StreamBridgeEvent::ResponseSent { emitted }) => {
            if emitted == 0 {
                (StreamBridgePhase::AwaitCloseAudit { written: 0 }, StreamBridgeAction::AuditClose)
            } else {
                (
                    StreamBridgePhase::AwaitParse { written: 0, remaining: emitted },
                    StreamBridgeAction::ParseOutbound,
                )
            }
        },
        (StreamBridgePhase::AwaitResponse, StreamBridgeEvent::ResponseFailed) => (
            StreamBridgePhase::Done,
            StreamBridgeAction::Finish(StreamBridgeEnd::ResponseFailed),
        ),
        (StreamBridgePhase::AwaitParse { written, remaining }, StreamBridgeEvent::Parsed) => (
            StreamBridgePhase::AwaitOutboundAudit { written, remaining },
            StreamBridgeAction::AuditOutbound,
        ),
        (StreamBridgePhase::AwaitParse { .. }, _) => (
            StreamBridgePhase::Done,
            StreamBridgeAction::Finish(StreamBridgeEnd::MalformedOutput),
        ),
        (
            StreamBridgePhase::AwaitOutboundAudit { written, remaining },
            StreamBridgeEvent::AuditRecorded,
        ) => (StreamBridgePhase::AwaitWrite { written, remaining }, StreamBridgeAction::WritePacket),
        (StreamBridgePhase::AwaitOutboundAudit { written, .. }, _) => (
            StreamBridgePhase::Done,
            StreamBridgeAction::Finish(StreamBridgeEnd::AuditRefused { written }),
        ),
        (StreamBridgePhase::AwaitWrite { written, remaining }, StreamBridgeEvent::Written) => {
            if remaining <= 1 {
                (
                    StreamBridgePhase::AwaitCloseAudit { written: written + 1 },
                    StreamBridgeAction::AuditClose,
                )
            } else {
                (
                    StreamBridgePhase::AwaitParse { written: written + 1, remaining: remaining - 1 },
                    StreamBridgeAction::ParseOutbound,
                )
            }
        },
        (StreamBridgePhase::AwaitWrite { .. }, _) => (
            StreamBridgePhase::AwaitWriteFailureAudit,
            StreamBridgeAction::AuditWriteFailure,
        ),
        (StreamBridgePhase::AwaitWriteFailureAudit, _) => (
            StreamBridgePhase::Done,
            StreamBridgeAction::Finish(StreamBridgeEnd::WriteFailed),
        ),
        (StreamBridgePhase::AwaitCloseAudit { written }, StreamBridgeEvent::AuditRecorded) => (
            StreamBridgePhase::Done,
            StreamBridgeAction::Finish(StreamBridgeEnd::Completed { written }),
        ),
        (StreamBridgePhase::AwaitCloseAudit { written }, _) => (
            StreamBridgePhase::Done,
            StreamBridgeAction::Finish(StreamBridgeEnd::CloseRefused { written }),
        ),
        _ => (StreamBridgePhase::Done, StreamBridgeAction::Finish(StreamBridgeEnd::FailClosed)),
    }
}

} // verus!
