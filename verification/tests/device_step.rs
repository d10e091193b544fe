use foxprox::bridge::{BridgeFlowKey, EgressError, HostTcpStream, StackTcpBridgeTable};
use foxprox::device_step::{
    begin_tcp_data, finish_flow_closed, finish_tcp_data, retain_connected_stream,
    FirstPayloadInspection, TcpDataOutcome,
};
use foxprox::model::{FrontendKind, IpAddress, SandboxId, SocketAddress};
use foxprox::net::{ByteCounts, FlowKey, FlowProtocol, StackFlowClosed, StackTcpData};
use foxprox::packet::{Ipv4Endpoint, TcpConnectAttempt};
use std::cell::RefCell;
use std::rc::Rc;

fn v4(a: u8, b: u8, c: u8, d: u8, port: u16) -> SocketAddress {
    SocketAddress { ip: IpAddress::V4(u32::from_be_bytes([a, b, c, d])), port }
}

struct RecordingStream {
    writes: Rc<RefCell<Vec<Vec<u8>>>>,
}

impl HostTcpStream for RecordingStream {
    fn write_from_sandbox(&mut self, bytes: &[u8]) -> Result<usize, EgressError> {
        self.writes.borrow_mut().push(bytes.to_vec());
        Ok(bytes.len())
    }

    fn read_to_sandbox(&mut self, _max_bytes: usize) -> Result<Vec<u8>, EgressError> {
        Ok(Vec::new())
    }
}

fn data(port: u16, bytes: &[u8]) -> StackTcpData {
    StackTcpData {
        sandbox_id: SandboxId::new("s1"),
        frontend: FrontendKind::Tun,
        source: v4(10, 0, 0, 2, 49152),
        destination: v4(203, 0, 113, 10, port),
        bytes: bytes.to_vec(),
    }
}

fn table_with(port: u16) -> (StackTcpBridgeTable<RecordingStream>, Rc<RefCell<Vec<Vec<u8>>>>) {
    let writes = Rc::new(RefCell::new(Vec::new()));
    let mut table = StackTcpBridgeTable::new();
    let key = BridgeFlowKey::new(
        SandboxId::new("s1"),
        FrontendKind::Tun,
        v4(10, 0, 0, 2, 49152),
        v4(203, 0, 113, 10, port),
    );
    table.try_insert(key, RecordingStream { writes: writes.clone() }).unwrap();
    (table, writes)
}

#[test]
fn first_http_payload_needs_inspection_once() {
    let (mut table, _) = table_with(80);
    let event = data(80, b"GET / HTTP/1.1\r\n\r\n");
    assert_eq!(begin_tcp_data(&mut table, &event), Some(FirstPayloadInspection::PlaintextHttp));
    assert_eq!(begin_tcp_data(&mut table, &event), None);
}

#[test]
fn first_tls_payload_needs_client_hello_inspection_and_other_ports_none() {
    let (mut table, _) = table_with(443);
    assert_eq!(
        begin_tcp_data(&mut table, &data(443, b"\x16\x03\x01")),
        Some(FirstPayloadInspection::TlsClientHello)
    );
    let (mut other, _) = table_with(22);
    assert_eq!(begin_tcp_data(&mut other, &data(22, b"SSH-2.0")), None);
    let mut empty: StackTcpBridgeTable<RecordingStream> = StackTcpBridgeTable::new();
    assert_eq!(begin_tcp_data(&mut empty, &data(80, b"GET")), None);
}

#[test]
fn denied_first_payload_removes_bridge_and_never_reaches_host() {
    let (mut table, writes) = table_with(80);
    let event = data(80, b"GET /blocked HTTP/1.1\r\n\r\n");
    assert!(begin_tcp_data(&mut table, &event).is_some());
    assert_eq!(finish_tcp_data(&mut table, &event, Some(false)).unwrap(), TcpDataOutcome::Denied);
    assert!(table.is_empty());
    assert!(writes.borrow().is_empty());
}

#[test]
fn allowed_payload_is_written_to_host_stream() {
    let (mut table, writes) = table_with(80);
    let event = data(80, b"hello");
    assert!(begin_tcp_data(&mut table, &event).is_some());
    assert_eq!(finish_tcp_data(&mut table, &event, Some(true)).unwrap(), TcpDataOutcome::Written(5));
    assert_eq!(*writes.borrow(), vec![b"hello".to_vec()]);
    assert_eq!(finish_tcp_data(&mut table, &data(80, b"more"), None).unwrap(), TcpDataOutcome::Written(4));
    assert_eq!(writes.borrow().len(), 2);
}

#[test]
fn data_without_bridge_reports_no_bridge() {
    let mut table: StackTcpBridgeTable<RecordingStream> = StackTcpBridgeTable::new();
    assert_eq!(finish_tcp_data(&mut table, &data(80, b"x"), None).unwrap(), TcpDataOutcome::NoBridge);
}

fn closed(protocol: FlowProtocol) -> StackFlowClosed {
    StackFlowClosed {
        sandbox_id: SandboxId::new("s1"),
        frontend: FrontendKind::Tun,
        key: FlowKey {
            source: v4(10, 0, 0, 2, 49152),
            destination: v4(203, 0, 113, 10, 80),
            protocol,
        },
        byte_counts: ByteCounts::default(),
        duration_millis: 5,
    }
}

#[test]
fn closed_tcp_flow_loses_its_bridge_only_after_the_audit() {
    let (mut table, _) = table_with(80);
    assert_eq!(finish_flow_closed(&mut table, &closed(FlowProtocol::Tcp), false), None);
    assert_eq!(table.len(), 1);
    assert_eq!(finish_flow_closed(&mut table, &closed(FlowProtocol::Udp), true), Some(false));
    assert_eq!(table.len(), 1);
    assert_eq!(finish_flow_closed(&mut table, &closed(FlowProtocol::Tcp), true), Some(true));
    assert!(table.is_empty());
    assert_eq!(finish_flow_closed(&mut table, &closed(FlowProtocol::Tcp), true), Some(false));
}

#[test]
fn connected_stream_is_kept_under_its_flow_key() {
    let mut table: StackTcpBridgeTable<RecordingStream> = StackTcpBridgeTable::new();
    let connect = TcpConnectAttempt {
        sandbox_id: SandboxId::new("s1"),
        frontend: FrontendKind::Tun,
        source: Ipv4Endpoint { ip: [10, 0, 0, 2], port: 49152 },
        destination: Ipv4Endpoint { ip: [203, 0, 113, 10], port: 80 },
    };
    let writes = Rc::new(RefCell::new(Vec::new()));
    assert!(retain_connected_stream(&mut table, &connect, RecordingStream { writes }).unwrap().is_none());
    let key = BridgeFlowKey::new(
        SandboxId::new("s1"),
        FrontendKind::Tun,
        v4(10, 0, 0, 2, 49152),
        v4(203, 0, 113, 10, 80),
    );
    assert!(table.contains_key(&key));
}
