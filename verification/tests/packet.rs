use foxprox::checksum::internet_checksum;
use foxprox::model::{DenialAction, FrontendKind, SandboxId};
use foxprox::policy::{AllowDecision, DenyDecision, PolicyDecision};
use foxprox::packet::{
    inspect_ipv4_packet, synthesize_ipv4_denial_response, synthesize_ipv4_icmp_unreachable,
    MalformedKind, NormalizedEvent, PacketError, UnsupportedReason,
};

fn sandbox() -> SandboxId {
    SandboxId::new("s1")
}

fn echo_request_packet() -> Vec<u8> {
    let mut packet = vec![
        0x45, 0, 0, 28, // version/IHL, DSCP, total length
        0x12, 0x34, 0, 0, // id, flags/fragment
        64, 1, 0, 0, // ttl, protocol=icmp, checksum
        10, 0, 0, 2, // source
        10, 0, 0, 1, // destination
        8, 0, 0, 0, // echo request, checksum
        0xab, 0xcd, 0, 1, // identifier, sequence
    ];
    let icmp_checksum = internet_checksum(&packet[20..]);
    packet[22..24].copy_from_slice(&icmp_checksum.to_be_bytes());
    finish_ipv4_checksum(&mut packet);
    packet
}

fn tcp_syn_packet() -> Vec<u8> {
    let mut packet = vec![
        0x45, 0, 0, 40, // version/IHL, total length
        0x12, 0x34, 0, 0, // id, flags/fragment
        64, 6, 0, 0, // ttl, protocol=tcp, checksum
        10, 0, 0, 2, // source
        203, 0, 113, 10, // destination
        0xc0, 0x00, 0x01, 0xbb, // ports 49152 -> 443
        0, 0, 0, 1, // seq
        0, 0, 0, 0, // ack
        0x50, 0x02, 0x72, 0x10, // data offset, SYN, window
        0, 0, 0, 0, // checksum, urgent
    ];
    finish_ipv4_checksum(&mut packet);
    packet
}

fn udp_packet(source_port: u16, destination_port: u16, payload: &[u8]) -> Vec<u8> {
    let udp_len = 8 + payload.len();
    let total_len = 20 + udp_len;
    let mut packet = vec![
        0x45,
        0,
        (total_len >> 8) as u8,
        total_len as u8,
        0x12,
        0x34,
        0,
        0,
        64,
        17,
        0,
        0,
        10,
        0,
        0,
        2,
        203,
        0,
        113,
        10,
        (source_port >> 8) as u8,
        source_port as u8,
        (destination_port >> 8) as u8,
        destination_port as u8,
        (udp_len >> 8) as u8,
        udp_len as u8,
        0,
        0,
    ];
    packet.extend_from_slice(payload);
    finish_ipv4_checksum(&mut packet);
    packet
}

fn finish_ipv4_checksum(packet: &mut [u8]) {
    packet[10] = 0;
    packet[11] = 0;
    let ihl = usize::from(packet[0] & 0x0f) * 4;
    let checksum = internet_checksum(&packet[..ihl]);
    packet[10..12].copy_from_slice(&checksum.to_be_bytes());
}

#[test]
fn icmp_echo_request_returns_normalized_event_and_synthetic_reply() {
    let request = echo_request_packet();
    let inspection = inspect_ipv4_packet(sandbox(), FrontendKind::Tun, &request);

    let NormalizedEvent::IcmpMessage(event) = inspection.event else {
        panic!("expected ICMP event");
    };
    assert_eq!(event.icmp_type, 8);
    assert_eq!(event.source, [10, 0, 0, 2]);
    assert_eq!(event.destination, [10, 0, 0, 1]);

    let reply = inspection.synthetic_reply.unwrap();
    assert_eq!(&reply.bytes()[12..16], &[10, 0, 0, 1]);
    assert_eq!(&reply.bytes()[16..20], &[10, 0, 0, 2]);
    assert_eq!(reply.bytes()[20], 0);
    assert_eq!(internet_checksum(&reply.bytes()[..20]), 0);
    assert_eq!(internet_checksum(&reply.bytes()[20..]), 0);
}

#[test]
fn tcp_syn_returns_connect_attempt_without_exposing_tcp_header() {
    let packet = tcp_syn_packet();
    let inspection = inspect_ipv4_packet(sandbox(), FrontendKind::Tun, &packet);
    let NormalizedEvent::TcpConnectAttempt(event) = inspection.event else {
        panic!("expected TCP connect attempt");
    };
    assert_eq!(event.source.ip, [10, 0, 0, 2]);
    assert_eq!(event.source.port, 49152);
    assert_eq!(event.destination.ip, [203, 0, 113, 10]);
    assert_eq!(event.destination.port, 443);
    assert!(inspection.synthetic_reply.is_none());
}

#[test]
fn non_syn_tcp_stays_behind_stack_adapter_boundary() {
    let mut packet = tcp_syn_packet();
    packet[20 + 13] = 0x10;
    packet[10] = 0;
    packet[11] = 0;
    let checksum = internet_checksum(&packet[..20]);
    packet[10..12].copy_from_slice(&checksum.to_be_bytes());

    let inspection = inspect_ipv4_packet(sandbox(), FrontendKind::Tun, &packet);
    let NormalizedEvent::UnsupportedNetworkEvent(event) = inspection.event else {
        panic!("expected unsupported event");
    };
    assert_eq!(event.reason, UnsupportedReason::StackAdapterRequired);
    assert_eq!(event.detail, PacketError::TcpRequiresStackAdapter { flags: 0x10 });
}

#[test]
fn udp_packet_returns_flow_attempt_with_payload() {
    let packet = udp_packet(53000, 443, &[1, 2, 3, 4]);
    let inspection = inspect_ipv4_packet(sandbox(), FrontendKind::Tun, &packet);
    let NormalizedEvent::UdpFlowAttempt(event) = inspection.event else {
        panic!("expected UDP flow attempt");
    };
    assert_eq!(event.source.ip, [10, 0, 0, 2]);
    assert_eq!(event.source.port, 53000);
    assert_eq!(event.destination.ip, [203, 0, 113, 10]);
    assert_eq!(event.destination.port, 443);
    assert_eq!(inspection.udp_payload, Some(vec![1, 2, 3, 4]));
}

#[test]
fn unsupported_protocol_becomes_fail_closed_event() {
    let mut packet = echo_request_packet();
    packet[9] = 99;
    packet[10] = 0;
    packet[11] = 0;
    let checksum = internet_checksum(&packet[..20]);
    packet[10..12].copy_from_slice(&checksum.to_be_bytes());

    let inspection = inspect_ipv4_packet(sandbox(), FrontendKind::Tun, &packet);
    let NormalizedEvent::UnsupportedNetworkEvent(event) = inspection.event else {
        panic!("expected unsupported event");
    };
    assert_eq!(event.reason, UnsupportedReason::UnsupportedIpProtocol(99));
    assert!(inspection.synthetic_reply.is_none());
}

#[test]
fn fragmented_packet_is_unsupported() {
    let mut packet = echo_request_packet();
    packet[6] = 0x20; // more fragments flag
    packet[10] = 0;
    packet[11] = 0;
    let checksum = internet_checksum(&packet[..20]);
    packet[10..12].copy_from_slice(&checksum.to_be_bytes());

    let inspection = inspect_ipv4_packet(sandbox(), FrontendKind::Tun, &packet);
    let NormalizedEvent::UnsupportedNetworkEvent(event) = inspection.event else {
        panic!("expected unsupported");
    };
    assert_eq!(event.reason, UnsupportedReason::UnsupportedFragmentation);
}

#[test]
fn short_and_malformed_packets_fail_closed() {
    let inspection = inspect_ipv4_packet(sandbox(), FrontendKind::Tun, &[0x45, 0, 0]);
    let NormalizedEvent::UnsupportedNetworkEvent(event) = inspection.event else {
        panic!("expected unsupported");
    };
    assert_eq!(event.reason, UnsupportedReason::MalformedPacket);
    assert_eq!(event.detail, PacketError::Malformed(MalformedKind::ShortIpv4Header));

    let mut packet = udp_packet(1000, 2000, &[9]);
    packet[25] = 200; // UDP length beyond the datagram
    let inspection = inspect_ipv4_packet(sandbox(), FrontendKind::Tun, &packet);
    let NormalizedEvent::UnsupportedNetworkEvent(event) = inspection.event else {
        panic!("expected unsupported");
    };
    assert_eq!(event.detail, PacketError::Malformed(MalformedKind::InvalidUdpLength));
}

#[test]
fn policy_icmp_unreachable_decision_synthesizes_denial_response() {
    let denied = udp_packet(53000, 12345, &[1, 2, 3, 4]);
    let decision = PolicyDecision::Deny(DenyDecision {
        action: DenialAction::IcmpUnreachable,
        rule_id: None,
        reason: "blocked".into(),
    });

    let response = synthesize_ipv4_denial_response(&denied, &decision).unwrap().unwrap();
    assert_eq!(response.bytes()[20], 3);
    assert_eq!(response.bytes()[21], 13);

    let drop = PolicyDecision::Deny(DenyDecision {
        action: DenialAction::Drop,
        rule_id: None,
        reason: "blocked".into(),
    });
    assert!(synthesize_ipv4_denial_response(&denied, &drop).unwrap().is_none());
}

#[test]
fn non_denials_get_no_denial_response() {
    let packet = udp_packet(53000, 12345, &[1, 2, 3, 4]);
    let fail_closed = PolicyDecision::FailClosed { reason: "unsupported network event".into() };
    assert!(synthesize_ipv4_denial_response(&packet, &fail_closed).unwrap().is_none());
    let allow = PolicyDecision::Allow(AllowDecision {
        rule_id: None,
        timeout_override_millis: None,
        reason: None,
    });
    assert!(synthesize_ipv4_denial_response(&packet, &allow).unwrap().is_none());
}

#[test]
fn synthesizes_icmp_unreachable_for_denied_ipv4_packet() {
    let denied = udp_packet(53000, 12345, &[1, 2, 3, 4]);
    let response = synthesize_ipv4_icmp_unreachable(&denied, 13).unwrap();

    assert_eq!(&response.bytes()[12..16], &[203, 0, 113, 10]);
    assert_eq!(&response.bytes()[16..20], &[10, 0, 0, 2]);
    assert_eq!(response.bytes()[20], 3);
    assert_eq!(response.bytes()[21], 13);
    assert_eq!(internet_checksum(&response.bytes()[..20]), 0);
    assert_eq!(internet_checksum(&response.bytes()[20..]), 0);
    assert_eq!(&response.bytes()[28..48], &denied[..20]);
}

#[test]
fn icmp_unreachable_of_malformed_packet_is_an_error() {
    assert_eq!(
        synthesize_ipv4_icmp_unreachable(&[0x45, 0, 0, 20], 3).unwrap_err(),
        PacketError::Malformed(MalformedKind::ShortIpv4Header)
    );
}

#[test]
fn internet_checksum_of_known_header() {
    // RFC 1071 style example: an IPv4 header whose checksum field is b1e6.
    let header = [
        0x45, 0x00, 0x00, 0x73, 0x00, 0x00, 0x40, 0x00, 0x40, 0x11, 0x00, 0x00, 0xc0, 0xa8, 0x00,
        0x01, 0xc0, 0xa8, 0x00, 0xc7,
    ];
    assert_eq!(internet_checksum(&header), 0xb861);
    assert_eq!(internet_checksum(&[]), 0xffff);
    assert_eq!(internet_checksum(&[0xff]), 0x00ff);
}
