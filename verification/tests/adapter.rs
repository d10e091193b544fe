use foxprox::adapter::{
    outbound_packets_from, ListenerStep, QueuedIpDevice, SmoltcpAdapterConfig, TcpListenerState,
    CRATE_NAME,
};
use foxprox::model::{FrontendKind, IpAddress, SandboxId, SocketAddress};
use foxprox::net::{ByteCounts, FlowKey, FlowProtocol, StackError};

fn addr(a: u8, b: u8, c: u8, d: u8, port: u16) -> SocketAddress {
    SocketAddress { ip: IpAddress::V4(u32::from_be_bytes([a, b, c, d])), port }
}

#[test]
fn crate_marker() {
    assert_eq!(CRATE_NAME, "foxprox-smoltcp");
}

#[test]
fn adapter_rejects_invalid_public_config_without_exposing_smoltcp_errors() {
    assert!(matches!(
        SmoltcpAdapterConfig::new(SandboxId::new("s1"), FrontendKind::Tun, [10, 0, 0, 1], 24, 0),
        Err(StackError::Adapter(_))
    ));
    assert!(matches!(
        SmoltcpAdapterConfig::new(SandboxId::new("s1"), FrontendKind::Tun, [10, 0, 0, 1], 33, 1500),
        Err(StackError::Adapter(_))
    ));
}

#[test]
fn adapter_config_builders_add_listeners_and_any_ip() {
    let config =
        SmoltcpAdapterConfig::new(SandboxId::new("s1"), FrontendKind::Tun, [10, 0, 0, 1], 24, 1500)
            .unwrap()
            .with_tcp_listener(80)
            .with_tcp_listener(443)
            .with_any_ip();
    assert_eq!(config.tcp_listen_ports, vec![80, 443]);
    assert!(config.accept_any_ip);
    assert_eq!(config.mtu, 1500);
    assert_eq!(config.random_seed, 0x6650_584f_4c54);
}

#[test]
fn queued_device_enforces_mtu_and_drains_in_order() {
    let mut device = QueuedIpDevice::new(4);
    assert!(device.push_inbound(vec![1, 2, 3, 4]).is_ok());
    assert!(matches!(device.push_inbound(vec![0; 5]), Err(StackError::Adapter(_))));
    assert_eq!(device.receive(), Some(vec![1, 2, 3, 4]));
    assert_eq!(device.receive(), None);
    device.transmit(vec![9]);
    device.transmit(vec![8, 7]);
    assert_eq!(device.drain_outbound(), vec![vec![9], vec![8, 7]]);
    assert!(device.drain_outbound().is_empty());
}

#[test]
fn outbound_packets_reject_empty_stack_output() {
    let packets = outbound_packets_from(vec![vec![1], vec![2, 3]]).unwrap();
    assert_eq!(packets.len(), 2);
    assert_eq!(packets[1].bytes(), &[2, 3]);
    assert_eq!(
        outbound_packets_from(vec![vec![1], vec![]]),
        Err(StackError::EmptyOutboundPacket)
    );
}

#[test]
fn listener_reports_connect_once_then_data_then_close_once() {
    let id = SandboxId::new("s1");
    let remote = addr(10, 0, 0, 2, 40000);
    let local = addr(93, 184, 216, 34, 80);
    let mut state = TcpListenerState::new();

    assert_eq!(state.observe(&id, FrontendKind::Tun, true, None, Some(local), 1), ListenerStep::Skip);
    assert_eq!(state, TcpListenerState::new());

    match state.observe(&id, FrontendKind::Tun, true, Some(remote), Some(local), 5) {
        ListenerStep::Open { connect: Some(connect), source, destination } => {
            assert_eq!(connect.sandbox_id, id);
            assert_eq!(connect.source, remote);
            assert_eq!(connect.destination, local);
            assert_eq!(source, remote);
            assert_eq!(destination, local);
        }
        other => panic!("unexpected step {other:?}"),
    }
    assert!(state.observed_connect);
    assert_eq!(state.connected_at_millis, 5);

    assert_eq!(
        state.observe(&id, FrontendKind::Tun, true, Some(remote), Some(local), 6),
        ListenerStep::Open { connect: None, source: remote, destination: local }
    );
    state.record_sandbox_bytes(7);
    state.record_host_bytes(3);
    state.record_sandbox_bytes(2);

    match state.observe(&id, FrontendKind::Tun, false, Some(remote), Some(local), 12) {
        ListenerStep::Closed(closed) => {
            assert_eq!(closed.key, FlowKey { source: remote, destination: local, protocol: FlowProtocol::Tcp });
            assert_eq!(closed.byte_counts, ByteCounts::new(9, 3));
            assert_eq!(closed.duration_millis, 7);
        }
        other => panic!("unexpected step {other:?}"),
    }
    assert!(state.closed_reported);
    assert!(!matches!(
        state.observe(&id, FrontendKind::Tun, false, Some(remote), Some(local), 13),
        ListenerStep::Closed(_)
    ));
}

#[test]
fn listener_close_duration_is_zero_when_clock_went_back() {
    let id = SandboxId::new("s1");
    let remote = addr(10, 0, 0, 2, 40000);
    let local = addr(10, 0, 0, 1, 443);
    let mut state = TcpListenerState::new();
    let _ = state.observe(&id, FrontendKind::Tun, true, Some(remote), Some(local), 50);
    match state.observe(&id, FrontendKind::Tun, false, None, None, 10) {
        ListenerStep::Closed(closed) => assert_eq!(closed.duration_millis, 0),
        other => panic!("unexpected step {other:?}"),
    }
}
