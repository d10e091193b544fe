use foxprox::broker_step::{
    dns_broker_step, packet_broker_step, DnsBrokerAction, DnsBrokerEnd, DnsBrokerEvent,
    DnsBrokerPhase, PacketBrokerAction, PacketBrokerEnd, PacketBrokerEvent, PacketBrokerPhase,
};

fn run_packet(start: PacketBrokerPhase, events: &[PacketBrokerEvent]) -> Vec<PacketBrokerAction> {
    let mut phase = start;
    let mut event = PacketBrokerEvent::Begin;
    let mut actions = Vec::new();
    let mut script = events.iter();
    loop {
        let (next, action) = packet_broker_step(phase, event);
        actions.push(action);
        if let PacketBrokerAction::Finish(_) = action {
            return actions;
        }
        phase = next;
        event = *script.next().expect("script ended early");
    }
}

fn run_dns(start: DnsBrokerPhase, events: &[DnsBrokerEvent]) -> Vec<DnsBrokerAction> {
    let mut phase = start;
    let mut event = DnsBrokerEvent::Begin;
    let mut actions = Vec::new();
    let mut script = events.iter();
    loop {
        let (next, action) = dns_broker_step(phase, event);
        actions.push(action);
        if let DnsBrokerAction::Finish(_) = action {
            return actions;
        }
        phase = next;
        event = *script.next().expect("script ended early");
    }
}

#[test]
fn allowed_udp_packet_is_audited_dispatched_and_sent() {
    let actions = run_packet(
        PacketBrokerPhase::Start { allowed: true, udp_payload: true, reply: false },
        &[
            PacketBrokerEvent::AuditRecorded,
            PacketBrokerEvent::Dispatched { udp_opened: true },
            PacketBrokerEvent::UdpSent,
        ],
    );
    assert_eq!(
        actions,
        vec![
            PacketBrokerAction::AuditDecision,
            PacketBrokerAction::Dispatch,
            PacketBrokerAction::SendUdpPayload,
            PacketBrokerAction::Finish(PacketBrokerEnd::Forwarded { udp_sent: true, reply: false }),
        ]
    );
}

#[test]
fn allowed_icmp_echo_queues_its_synthetic_reply() {
    let actions = run_packet(
        PacketBrokerPhase::Start { allowed: true, udp_payload: false, reply: true },
        &[
            PacketBrokerEvent::AuditRecorded,
            PacketBrokerEvent::DispatchUnsupported,
            PacketBrokerEvent::ReplyBuilt { some: true },
        ],
    );
    assert_eq!(
        actions.last(),
        Some(&PacketBrokerAction::Finish(PacketBrokerEnd::NoEgress { reply: true }))
    );
    assert!(actions.contains(&PacketBrokerAction::QueueSyntheticReply));
}

#[test]
fn denied_packet_gets_denial_reply_and_never_reaches_egress() {
    let actions = run_packet(
        PacketBrokerPhase::Start { allowed: false, udp_payload: true, reply: true },
        &[PacketBrokerEvent::AuditRecorded, PacketBrokerEvent::ReplyBuilt { some: true }],
    );
    assert_eq!(
        actions,
        vec![
            PacketBrokerAction::AuditDecision,
            PacketBrokerAction::SynthesizeDenialReply,
            PacketBrokerAction::Finish(PacketBrokerEnd::Denied { reply: true }),
        ]
    );
    let audit_failed = run_packet(
        PacketBrokerPhase::Start { allowed: true, udp_payload: true, reply: false },
        &[PacketBrokerEvent::AuditFailed],
    );
    assert_eq!(audit_failed.last(), Some(&PacketBrokerAction::Finish(PacketBrokerEnd::AuditFailed)));
    assert!(!audit_failed.contains(&PacketBrokerAction::Dispatch));
}

#[test]
fn allowed_dns_query_is_resolved_and_answered() {
    let actions = run_dns(
        DnsBrokerPhase::Start { allowed: true, query: true },
        &[
            DnsBrokerEvent::AuditRecorded,
            DnsBrokerEvent::Resolved,
            DnsBrokerEvent::ResponseBuilt { some: true },
        ],
    );
    assert_eq!(
        actions,
        vec![
            DnsBrokerAction::AuditDecision,
            DnsBrokerAction::Resolve,
            DnsBrokerAction::BuildAnswer,
            DnsBrokerAction::Finish(DnsBrokerEnd::Answered),
        ]
    );
}

#[test]
fn refused_dns_query_is_never_resolved() {
    let refused = run_dns(
        DnsBrokerPhase::Start { allowed: false, query: true },
        &[DnsBrokerEvent::AuditRecorded, DnsBrokerEvent::ResponseBuilt { some: true }],
    );
    assert_eq!(refused.last(), Some(&DnsBrokerAction::Finish(DnsBrokerEnd::Refused { response: true })));
    assert!(!refused.contains(&DnsBrokerAction::Resolve));
    let unparseable = run_dns(
        DnsBrokerPhase::Start { allowed: false, query: false },
        &[DnsBrokerEvent::AuditRecorded, DnsBrokerEvent::ResponseFailed],
    );
    assert_eq!(
        unparseable.last(),
        Some(&DnsBrokerAction::Finish(DnsBrokerEnd::Refused { response: false }))
    );
    let not_query = run_dns(
        DnsBrokerPhase::Start { allowed: true, query: false },
        &[DnsBrokerEvent::AuditRecorded],
    );
    assert_eq!(not_query.last(), Some(&DnsBrokerAction::Finish(DnsBrokerEnd::NoResponse)));
}
