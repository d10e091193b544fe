use foxprox::tun_bridge::{
    stream_bridge_step, tun_bridge_step, udp_bridge_step, StreamBridgeAction, StreamBridgeEnd,
    StreamBridgeEvent, StreamBridgePhase, TunBridgeAction, TunBridgeEnd, TunBridgeEvent,
    TunBridgePhase, UdpBridgeAction, UdpBridgeEnd, UdpBridgeEvent, UdpBridgePhase,
};

/// Runs the UDP exchange over the scripted outcomes and returns its actions.
fn run_udp(events: &[UdpBridgeEvent]) -> Vec<UdpBridgeAction> {
    let mut phase = UdpBridgePhase::Start;
    let mut event = UdpBridgeEvent::Begin;
    let mut actions = Vec::new();
    let mut script = events.iter();
    loop {
        let (next, action) = udp_bridge_step(phase, event);
        actions.push(action);
        if let UdpBridgeAction::Finish(_) = action {
            return actions;
        }
        phase = next;
        event = *script.next().expect("script ended early");
    }
}

fn run_tun(start: TunBridgePhase, events: &[TunBridgeEvent]) -> Vec<TunBridgeAction> {
    let mut phase = start;
    let mut event = TunBridgeEvent::Begin;
    let mut actions = Vec::new();
    let mut script = events.iter();
    loop {
        let (next, action) = tun_bridge_step(phase, event);
        actions.push(action);
        if let TunBridgeAction::Finish(_) = action {
            return actions;
        }
        phase = next;
        event = *script.next().expect("script ended early");
    }
}

#[test]
fn allowed_udp_datagram_is_exchanged_and_reply_written_after_audit() {
    let actions = run_udp(&[
        UdpBridgeEvent::Parsed { udp: true, template: true },
        UdpBridgeEvent::AuditRecorded,
        UdpBridgeEvent::Decided { denied: false },
        UdpBridgeEvent::Exchanged { response_ok: true },
        UdpBridgeEvent::AuditRecorded,
        UdpBridgeEvent::Written,
    ]);
    assert_eq!(
        actions,
        vec![
            UdpBridgeAction::ReadPacket,
            UdpBridgeAction::AuditInbound,
            UdpBridgeAction::Evaluate,
            UdpBridgeAction::Exchange,
            UdpBridgeAction::AuditResponse,
            UdpBridgeAction::WriteResponse,
            UdpBridgeAction::Finish(UdpBridgeEnd::Exchanged),
        ]
    );
}

#[test]
fn denied_malformed_and_non_udp_datagrams_never_reach_the_host() {
    let denied = run_udp(&[UdpBridgeEvent::Parsed { udp: true, template: true }, UdpBridgeEvent::AuditRecorded, UdpBridgeEvent::Decided { denied: true }]);
    assert_eq!(denied.last(), Some(&UdpBridgeAction::Finish(UdpBridgeEnd::Denied)));
    let malformed = run_udp(&[UdpBridgeEvent::Malformed, UdpBridgeEvent::AuditRecorded]);
    assert_eq!(malformed.last(), Some(&UdpBridgeAction::Finish(UdpBridgeEnd::FailClosedMalformed)));
    let tcp = run_udp(&[UdpBridgeEvent::Parsed { udp: false, template: false }, UdpBridgeEvent::AuditRecorded, UdpBridgeEvent::AuditRecorded]);
    assert_eq!(tcp.last(), Some(&UdpBridgeAction::Finish(UdpBridgeEnd::FailClosedUnsupported)));
    let refused = run_udp(&[UdpBridgeEvent::Parsed { udp: true, template: true }, UdpBridgeEvent::AuditRefused]);
    assert_eq!(refused.last(), Some(&UdpBridgeAction::Finish(UdpBridgeEnd::AuditRefused)));
    for run in [denied, malformed, tcp, refused] {
        assert!(!run.contains(&UdpBridgeAction::Exchange));
        assert!(!run.contains(&UdpBridgeAction::WriteResponse));
    }
    let failed = run_udp(&[UdpBridgeEvent::ReadFailed { send_side: false }, UdpBridgeEvent::AuditRecorded]);
    assert_eq!(
        failed.last(),
        Some(&UdpBridgeAction::Finish(UdpBridgeEnd::DeviceError { send_side: false }))
    );
}

#[test]
fn allowed_tun_packet_reaches_stack_and_each_output_is_audited_before_write() {
    let actions = run_tun(
        TunBridgePhase::StartPacket,
        &[TunBridgeEvent::Parsed, TunBridgeEvent::AuditRecorded, TunBridgeEvent::Decided { denied: false }, TunBridgeEvent::Polled { emitted: 2 }, TunBridgeEvent::Parsed,
          TunBridgeEvent::AuditRecorded, TunBridgeEvent::Written, TunBridgeEvent::Parsed, TunBridgeEvent::AuditRecorded, TunBridgeEvent::Written],
    );
    assert_eq!(
        actions,
        vec![
            TunBridgeAction::ReadPacket,
            TunBridgeAction::AuditInbound,
            TunBridgeAction::Evaluate,
            TunBridgeAction::InjectAndPoll,
            TunBridgeAction::ParseOutbound,
            TunBridgeAction::AuditOutbound,
            TunBridgeAction::WritePacket,
            TunBridgeAction::ParseOutbound,
            TunBridgeAction::AuditOutbound,
            TunBridgeAction::WritePacket,
            TunBridgeAction::Finish(TunBridgeEnd::Completed { inbound: true, written: 2 }),
        ]
    );
}

#[test]
fn denied_tun_packet_never_reaches_the_stack() {
    let actions = run_tun(TunBridgePhase::StartPacket, &[TunBridgeEvent::Parsed, TunBridgeEvent::AuditRecorded, TunBridgeEvent::Decided { denied: true }]);
    assert_eq!(actions.last(), Some(&TunBridgeAction::Finish(TunBridgeEnd::Denied)));
    assert!(!actions.contains(&TunBridgeAction::InjectAndPoll));
    let malformed = run_tun(TunBridgePhase::StartPacket, &[TunBridgeEvent::Malformed, TunBridgeEvent::AuditRecorded]);
    assert_eq!(
        malformed.last(),
        Some(&TunBridgeAction::Finish(TunBridgeEnd::FailClosed { inbound: false, written: 0 }))
    );
}

#[test]
fn ready_poll_stops_at_a_refused_output_audit_or_a_write_failure() {
    let refused = run_tun(
        TunBridgePhase::StartReadyPoll,
        &[TunBridgeEvent::Polled { emitted: 3 }, TunBridgeEvent::Parsed, TunBridgeEvent::AuditRecorded, TunBridgeEvent::Written, TunBridgeEvent::Parsed, TunBridgeEvent::AuditRefused],
    );
    assert_eq!(
        refused.last(),
        Some(&TunBridgeAction::Finish(TunBridgeEnd::AuditRefused { inbound: false, written: 1 }))
    );
    let failed = run_tun(
        TunBridgePhase::StartReadyPoll,
        &[TunBridgeEvent::Polled { emitted: 1 }, TunBridgeEvent::Parsed, TunBridgeEvent::AuditRecorded, TunBridgeEvent::WriteFailed, TunBridgeEvent::AuditRecorded],
    );
    assert_eq!(failed.last(), Some(&TunBridgeAction::Finish(TunBridgeEnd::WriteError { written: 0 })));
    let idle = run_tun(TunBridgePhase::StartReadyPoll, &[TunBridgeEvent::Polled { emitted: 0 }]);
    assert_eq!(
        idle,
        vec![
            TunBridgeAction::PollStack,
            TunBridgeAction::Finish(TunBridgeEnd::Completed { inbound: false, written: 0 })
        ]
    );
}

fn run_stream(events: &[StreamBridgeEvent]) -> Vec<StreamBridgeAction> {
    let mut phase = StreamBridgePhase::Start;
    let mut event = StreamBridgeEvent::Begin;
    let mut actions = Vec::new();
    let mut script = events.iter();
    loop {
        let (next, action) = stream_bridge_step(phase, event);
        actions.push(action);
        if let StreamBridgeAction::Finish(_) = action {
            return actions;
        }
        phase = next;
        event = *script.next().expect("script ended early");
    }
}

#[test]
fn allowed_stream_is_exchanged_and_response_written_after_audit() {
    let actions = run_stream(&[
        StreamBridgeEvent::Drained { empty: false },
        StreamBridgeEvent::Endpoints { found: true },
        StreamBridgeEvent::Decided { denied: false },
        StreamBridgeEvent::Exchanged { ok: true },
        StreamBridgeEvent::ResponseSent { emitted: 1 },
        StreamBridgeEvent::Parsed,
        StreamBridgeEvent::AuditRecorded,
        StreamBridgeEvent::Written,
        StreamBridgeEvent::AuditRecorded,
    ]);
    assert_eq!(
        actions,
        vec![
            StreamBridgeAction::DrainSandbox,
            StreamBridgeAction::ResolveEndpoints,
            StreamBridgeAction::Evaluate,
            StreamBridgeAction::ConnectAndExchange,
            StreamBridgeAction::SendResponse,
            StreamBridgeAction::ParseOutbound,
            StreamBridgeAction::AuditOutbound,
            StreamBridgeAction::WritePacket,
            StreamBridgeAction::AuditClose,
            StreamBridgeAction::Finish(StreamBridgeEnd::Completed { written: 1 }),
        ]
    );
}

#[test]
fn denied_or_empty_stream_never_contacts_the_host() {
    let denied = run_stream(&[
        StreamBridgeEvent::Drained { empty: false },
        StreamBridgeEvent::Endpoints { found: true },
        StreamBridgeEvent::Decided { denied: true },
    ]);
    assert_eq!(denied.last(), Some(&StreamBridgeAction::Finish(StreamBridgeEnd::Denied)));
    assert!(!denied.contains(&StreamBridgeAction::ConnectAndExchange));
    let empty = run_stream(&[StreamBridgeEvent::Drained { empty: true }]);
    assert_eq!(empty, vec![
        StreamBridgeAction::DrainSandbox,
        StreamBridgeAction::Finish(StreamBridgeEnd::NothingToSend),
    ]);
    let failed = run_stream(&[
        StreamBridgeEvent::Drained { empty: false },
        StreamBridgeEvent::Endpoints { found: true },
        StreamBridgeEvent::Decided { denied: false },
        StreamBridgeEvent::Exchanged { ok: false },
        StreamBridgeEvent::AuditRecorded,
    ]);
    assert_eq!(failed.last(), Some(&StreamBridgeAction::Finish(StreamBridgeEnd::EgressFailed)));
    let refused = run_stream(&[
        StreamBridgeEvent::Drained { empty: false },
        StreamBridgeEvent::Endpoints { found: true },
        StreamBridgeEvent::Decided { denied: false },
        StreamBridgeEvent::Exchanged { ok: true },
        StreamBridgeEvent::ResponseSent { emitted: 2 },
        StreamBridgeEvent::Parsed,
        StreamBridgeEvent::AuditRefused,
    ]);
    assert_eq!(
        refused.last(),
        Some(&StreamBridgeAction::Finish(StreamBridgeEnd::AuditRefused { written: 0 }))
    );
    assert!(!refused.contains(&StreamBridgeAction::WritePacket));
}
