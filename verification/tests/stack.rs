use foxprox::checksum::internet_checksum;
use foxprox::stack::{
    response_packet, udp_exchange_error_detail, udp_payload_and_response_template,
    InMemoryIpDevice, StackPollEvidence, UdpExchangeError, UdpResponseTemplate,
};

fn udp_datagram(payload: &[u8]) -> Vec<u8> {
    let udp_len = 8 + payload.len();
    let total_len = 20 + udp_len;
    let mut packet = vec![0_u8; total_len];
    packet[0] = 0x45;
    packet[2..4].copy_from_slice(&(total_len as u16).to_be_bytes());
    packet[8] = 64;
    packet[9] = 17;
    packet[12..16].copy_from_slice(&[10, 0, 0, 2]);
    packet[16..20].copy_from_slice(&[10, 0, 0, 1]);
    packet[20..22].copy_from_slice(&53000_u16.to_be_bytes());
    packet[22..24].copy_from_slice(&53_u16.to_be_bytes());
    packet[24..26].copy_from_slice(&(udp_len as u16).to_be_bytes());
    packet[28..].copy_from_slice(payload);
    let checksum = internet_checksum(&packet[..20]);
    packet[10..12].copy_from_slice(&checksum.to_be_bytes());
    packet
}

#[test]
fn in_memory_ip_device_exposes_bounded_mtu_capabilities() {
    let device = InMemoryIpDevice::new(1280);
    assert_eq!(device.mtu(), 1280);
}

#[test]
fn in_memory_device_keeps_emitted_packets() {
    let mut device = InMemoryIpDevice::new(1500);
    device.push_inbound(vec![1, 2, 3]);
    let (rx, tx) = device.receive().unwrap();
    assert_eq!(rx.consume(), vec![1, 2, 3]);
    assert_eq!(tx.mtu, 1500);
    tx.consume(&mut device, vec![7, 7]);
    assert_eq!(device.outbound_packets(), vec![vec![7, 7]]);
    assert_eq!(device.outbound_packets(), vec![vec![7, 7]]);
    assert!(device.receive().is_none());
    device.transmit().consume(&mut device, vec![1]);
    assert_eq!(device.outbound_packets(), vec![vec![7, 7], vec![1]]);
}

#[test]
fn poll_evidence_readiness() {
    let none = StackPollEvidence::none();
    assert_eq!(none.poll_result, "none");
    assert_eq!(none.packets_emitted, 0);
    assert!(!none.ready_now());
    assert_eq!(none.next_ready_delay_ms(), None);
    let due = StackPollEvidence {
        next_poll_delay_ms: Some(0),
        ..none
    };
    assert!(due.ready_now());
    assert_eq!(due.next_ready_delay_ms(), None);
    let later = StackPollEvidence {
        next_poll_delay_ms: Some(25),
        ..none
    };
    assert!(!later.ready_now());
    assert_eq!(later.next_ready_delay_ms(), Some(25));
}

#[test]
fn udp_exchange_errors_have_audit_details() {
    assert_eq!(udp_exchange_error_detail(&UdpExchangeError::SendFailed), "send_failed");
    assert_eq!(
        udp_exchange_error_detail(&UdpExchangeError::ReceiveFailed),
        "receive_failed"
    );
}

#[test]
fn udp_datagram_yields_payload_and_mirrored_reply_template() {
    let packet = udp_datagram(b"query");
    let (payload, template) = udp_payload_and_response_template(&packet).unwrap();
    assert_eq!(payload, b"query");
    assert_eq!(
        template,
        UdpResponseTemplate {
            source: [10, 0, 0, 1],
            destination: [10, 0, 0, 2],
            source_port: 53,
            destination_port: 53000,
        }
    );

    let reply = response_packet(&template, b"answer").unwrap();
    assert_eq!(reply.len(), 28 + 6);
    assert_eq!(internet_checksum(&reply[..20]), 0);
    assert_eq!(&reply[12..16], &[10, 0, 0, 1]);
    assert_eq!(&reply[16..20], &[10, 0, 0, 2]);
    assert_eq!(u16::from_be_bytes([reply[20], reply[21]]), 53);
    assert_eq!(u16::from_be_bytes([reply[22], reply[23]]), 53000);
    assert_eq!(&reply[28..], b"answer");

    let (echoed, mirrored) = udp_payload_and_response_template(&reply).unwrap();
    assert_eq!(echoed, b"answer");
    assert_eq!(mirrored.source, [10, 0, 0, 2]);
    assert_eq!(mirrored.destination_port, 53);
}

#[test]
fn non_udp_or_inconsistent_datagrams_have_no_template() {
    let mut tcp = udp_datagram(b"x");
    tcp[9] = 6;
    assert!(udp_payload_and_response_template(&tcp).is_none());
    let mut short_total = udp_datagram(b"xyz");
    short_total[3] = 28; // total length shorter than IHL + UDP length
    assert!(udp_payload_and_response_template(&short_total).is_none());
    assert!(udp_payload_and_response_template(&[0x45; 20]).is_none());
}

#[test]
fn oversized_reply_is_refused() {
    let template = UdpResponseTemplate {
        source: [1, 1, 1, 1],
        destination: [2, 2, 2, 2],
        source_port: 1,
        destination_port: 2,
    };
    assert!(response_packet(&template, &vec![0; 65535 - 28]).is_some());
    assert!(response_packet(&template, &vec![0; 65535 - 27]).is_none());
}

#[test]
fn outbound_packets_since_and_poll_evidence_measure_new_output() {
    let mut device = InMemoryIpDevice::new(1500);
    for packet in [vec![1u8, 2, 3], vec![4u8], vec![5u8, 6]] {
        device.transmit().consume(&mut device, packet);
    }
    assert_eq!(device.outbound_len(), 3);
    assert_eq!(device.outbound_packets_since(1), vec![vec![4u8], vec![5u8, 6]]);
    assert!(device.outbound_packets_since(7).is_empty());

    let evidence = device.poll_evidence_since(1, "socket_state_changed", Some(0));
    assert_eq!(evidence.packets_emitted, 2);
    assert_eq!(evidence.outbound_bytes, 3);
    assert_eq!(evidence.poll_result, "socket_state_changed");
    assert!(evidence.ready_now());
    let none = device.poll_evidence_since(9, "none", None);
    assert_eq!(none.packets_emitted, 0);
    assert_eq!(none.outbound_bytes, 0);
}
