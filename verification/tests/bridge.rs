use foxprox::bridge::{
    checked_read, settle_flush_write, settle_host_write, BridgeFlowKey, BridgeLimit, EgressError,
    HostTcpStream, HostUdpFlow, StackTcpBridgeLimits, StackTcpBridgeTable, UdpBridgeLimits,
    UdpBridgeTable,
};
use foxprox::model::{FrontendKind, IpAddress, SandboxId, SocketAddress};
use foxprox::net::StackTcpData;
use std::cell::RefCell;
use std::collections::{HashSet, VecDeque};
use std::rc::Rc;

fn v4(a: u8, b: u8, c: u8, d: u8, port: u16) -> SocketAddress {
    SocketAddress {
        ip: IpAddress::V4(u32::from_be_bytes([a, b, c, d])),
        port,
    }
}

fn key(sandbox: &str, source_port: u16, destination: SocketAddress) -> BridgeFlowKey {
    BridgeFlowKey::new(
        SandboxId::new(sandbox),
        FrontendKind::Tun,
        v4(10, 0, 0, 2, source_port),
        destination,
    )
}

struct ReadableTcpStream {
    reads: VecDeque<Vec<u8>>,
}

impl HostTcpStream for ReadableTcpStream {
    fn write_from_sandbox(&mut self, bytes: &[u8]) -> Result<usize, EgressError> {
        Ok(bytes.len())
    }

    fn read_to_sandbox(&mut self, max_bytes: usize) -> Result<Vec<u8>, EgressError> {
        let Some(mut bytes) = self.reads.pop_front() else {
            return Ok(Vec::new());
        };
        bytes.truncate(max_bytes);
        Ok(bytes)
    }
}

struct PartialWriteTcpStream {
    max_write: usize,
    writes: Rc<RefCell<Vec<Vec<u8>>>>,
}

impl HostTcpStream for PartialWriteTcpStream {
    fn write_from_sandbox(&mut self, bytes: &[u8]) -> Result<usize, EgressError> {
        let n = bytes.len().min(self.max_write);
        self.writes.borrow_mut().push(bytes[..n].to_vec());
        Ok(n)
    }

    fn read_to_sandbox(&mut self, _max_bytes: usize) -> Result<Vec<u8>, EgressError> {
        Ok(Vec::new())
    }
}

struct ReadableUdpFlow {
    reads: VecDeque<Vec<u8>>,
}

impl HostUdpFlow for ReadableUdpFlow {
    fn recv_to_sandbox(&mut self, max_bytes: usize) -> Result<Vec<u8>, EgressError> {
        let Some(mut bytes) = self.reads.pop_front() else {
            return Ok(Vec::new());
        };
        bytes.truncate(max_bytes);
        Ok(bytes)
    }
}

struct FailingUdpFlow;

impl HostUdpFlow for FailingUdpFlow {
    fn recv_to_sandbox(&mut self, _max_bytes: usize) -> Result<Vec<u8>, EgressError> {
        Err(EgressError::StreamIo("udp host failure".into()))
    }
}

fn readable(reads: Vec<Vec<u8>>) -> ReadableUdpFlow {
    ReadableUdpFlow {
        reads: reads.into(),
    }
}

#[test]
fn udp_bridge_table_enforces_max_flow_limit() {
    let first = key("s1", 53000, v4(203, 0, 113, 10, 12345));
    let second = key("s1", 53001, v4(203, 0, 113, 11, 12345));
    let mut bridges = UdpBridgeTable::with_limits(UdpBridgeLimits {
        max_flows: 1,
        max_flows_per_sandbox: usize::MAX,
    });

    bridges
        .try_insert_with_timeout(first, readable(Vec::new()), 0, 30)
        .unwrap();
    let error = match bridges.try_insert_with_timeout(second, readable(Vec::new()), 0, 30) {
        Ok(_) => panic!("expected UDP bridge flow limit error"),
        Err(error) => error,
    };

    assert!(error.describe().contains("UDP bridge flow limit"));
    assert_eq!(bridges.len(), 1);
}

#[test]
fn udp_bridge_table_enforces_per_sandbox_flow_limit() {
    let mut bridges = UdpBridgeTable::with_limits(UdpBridgeLimits {
        max_flows: usize::MAX,
        max_flows_per_sandbox: 1,
    });
    let first = key("s1", 53000, v4(203, 0, 113, 10, 12345));
    let second = key("s1", 53001, v4(203, 0, 113, 11, 12345));

    bridges
        .try_insert_with_timeout(first, readable(Vec::new()), 0, 30)
        .unwrap();
    let error = match bridges.try_insert_with_timeout(second, readable(Vec::new()), 0, 30) {
        Ok(_) => panic!("expected UDP bridge sandbox flow limit error"),
        Err(error) => error,
    };

    assert!(error.describe().contains("UDP bridge sandbox flow limit"));
    assert_eq!(bridges.len(), 1);
}

#[test]
fn udp_bridge_table_expires_idle_flows_by_timeout() {
    let mut bridges = UdpBridgeTable::new();
    bridges.insert_with_timeout(
        key("s1", 53000, v4(203, 0, 113, 10, 12345)),
        readable(Vec::new()),
        100,
        30,
    );

    assert_eq!(bridges.expire_idle(129), 0);
    assert_eq!(bridges.len(), 1);
    assert_eq!(bridges.expire_idle(130), 1);
    assert!(bridges.is_empty());
}

#[test]
fn udp_bridge_replacing_a_key_ignores_limits() {
    let mut bridges = UdpBridgeTable::with_limits(UdpBridgeLimits {
        max_flows: 1,
        max_flows_per_sandbox: 1,
    });
    let first = key("s1", 53000, v4(203, 0, 113, 10, 12345));
    assert!(bridges
        .try_insert_with_timeout(first.clone(), readable(Vec::new()), 0, 30)
        .unwrap()
        .is_none());
    assert!(bridges
        .try_insert_with_timeout(first.clone(), readable(Vec::new()), 5, 30)
        .unwrap()
        .is_some());
    assert_eq!(bridges.len(), 1);
    assert!(bridges.remove(&first).is_some());
    assert!(bridges.remove(&first).is_none());
}

#[test]
fn tcp_bridge_read_budget_advances_round_robin_cursor() {
    let mut bridges = StackTcpBridgeTable::new();
    for port in [50000u16, 50001, 50002] {
        bridges.insert(
            key("s1", port, v4(203, 0, 113, 10, 80)),
            ReadableTcpStream {
                reads: vec![vec![port as u8]].into(),
            },
        );
    }

    let mut ports = HashSet::new();
    for _ in 0..3 {
        let pass = bridges
            .read_to_sandbox_with_budget(1024, 1, usize::MAX, usize::MAX)
            .unwrap();
        assert_eq!(pass.reads.len(), 1);
        ports.insert(pass.reads[0].0.source.port);
    }

    assert_eq!(ports.len(), 3);
    assert_eq!(bridges.read_cursor(), 0);
}

#[test]
fn udp_bridge_read_budget_advances_round_robin_cursor() {
    let mut bridges = UdpBridgeTable::new();
    for port in [50000u16, 50001, 50002] {
        bridges.insert(
            key("s1", port, v4(203, 0, 113, 10, 12345)),
            readable(vec![vec![port as u8]]),
        );
    }

    for _ in 0..3 {
        let pass = bridges
            .read_from_host_with_budget(1024, 1, usize::MAX, usize::MAX, 20)
            .unwrap();
        assert_eq!(pass.replies.len(), 1);
    }

    assert_eq!(bridges.read_cursor(), 0);
}

#[test]
fn tcp_bridge_read_budget_caps_each_sandbox_per_tick() {
    let mut bridges = StackTcpBridgeTable::new();
    for (sandbox, port) in [("s1", 50000u16), ("s1", 50001), ("s2", 50002)] {
        bridges.insert(
            key(sandbox, port, v4(203, 0, 113, 10, 80)),
            ReadableTcpStream {
                reads: vec![vec![port as u8]].into(),
            },
        );
    }

    let pass = bridges
        .read_to_sandbox_with_budget(1024, 2, 1, usize::MAX)
        .unwrap();

    assert_eq!(pass.reads.len(), 2);
    let sandboxes: HashSet<_> = pass
        .reads
        .iter()
        .map(|(key, _)| key.sandbox_id.as_str().to_string())
        .collect();
    let expected: HashSet<_> = ["s1".to_string(), "s2".to_string()].into_iter().collect();
    assert_eq!(sandboxes, expected);
}

#[test]
fn udp_bridge_read_budget_caps_each_sandbox_per_tick() {
    let mut bridges = UdpBridgeTable::new();
    for (sandbox, port) in [("s1", 50000u16), ("s1", 50001), ("s2", 50002)] {
        bridges.insert(
            key(sandbox, port, v4(203, 0, 113, 10, 12345)),
            readable(vec![vec![port as u8]]),
        );
    }

    let pass = bridges
        .read_from_host_with_budget(1024, 2, 1, usize::MAX, 20)
        .unwrap();

    assert_eq!(pass.replies.len(), 2);
    assert!(pass.failed.is_empty());
}

#[test]
fn tcp_bridge_read_budget_caps_bytes_per_sandbox_per_tick() {
    let mut bridges = StackTcpBridgeTable::new();
    bridges.insert(
        key("s1", 50000, v4(203, 0, 113, 10, 80)),
        ReadableTcpStream {
            reads: vec![b"abcdef".to_vec()].into(),
        },
    );

    let pass = bridges.read_to_sandbox_with_budget(1024, 1, 1, 3).unwrap();

    assert_eq!(pass.reads.len(), 1);
    assert_eq!(pass.reads[0].1, b"abc".to_vec());
}

#[test]
fn udp_bridge_read_budget_caps_bytes_per_sandbox_per_tick() {
    let mut bridges = UdpBridgeTable::new();
    bridges.insert(
        key("s1", 50000, v4(203, 0, 113, 10, 12345)),
        readable(vec![b"abcdef".to_vec()]),
    );

    let pass = bridges
        .read_from_host_with_budget(1024, 1, 1, 3, 20)
        .unwrap();

    let bytes: usize = pass.replies.iter().map(|(_, bytes)| bytes.len()).sum();
    assert_eq!(bytes, 3);
}

#[test]
fn udp_bridge_host_error_removes_the_flow() {
    let mut bridges: UdpBridgeTable<FailingUdpFlow> = UdpBridgeTable::new();
    let failing = key("s1", 53000, v4(203, 0, 113, 10, 12345));
    bridges.insert(failing.clone(), FailingUdpFlow);

    let pass = bridges
        .read_from_host_with_budget(1024, 4, 4, usize::MAX, 20)
        .unwrap();

    assert_eq!(pass.failed, vec![failing.clone()]);
    assert!(pass.replies.is_empty());
    assert!(!bridges.contains_key(&failing));
}

#[test]
fn udp_reply_refreshes_idle_timer() {
    let mut bridges = UdpBridgeTable::new();
    let flow = key("s1", 53000, v4(203, 0, 113, 10, 12345));
    bridges.insert_with_timeout(flow.clone(), readable(vec![b"pong".to_vec()]), 0, 30);

    let pass = bridges
        .read_from_host_with_budget(1024, 1, 1, usize::MAX, 100)
        .unwrap();
    assert_eq!(pass.replies.len(), 1);
    assert_eq!(bridges.expire_idle(129), 0);
    assert_eq!(bridges.expire_idle(130), 1);
}

fn tcp_data(key: &BridgeFlowKey, bytes: &[u8]) -> StackTcpData {
    StackTcpData {
        sandbox_id: key.sandbox_id.duplicate(),
        frontend: key.frontend,
        source: key.source,
        destination: key.destination,
        bytes: bytes.to_vec(),
    }
}

#[test]
fn bridge_table_retains_partial_sandbox_writes_for_later_flush() {
    let key = key("s1", 49152, v4(203, 0, 113, 10, 80));
    let writes = Rc::new(RefCell::new(Vec::new()));
    let mut bridges = StackTcpBridgeTable::new();
    bridges.insert(
        key.clone(),
        PartialWriteTcpStream {
            max_write: 2,
            writes: Rc::clone(&writes),
        },
    );
    let data = tcp_data(&key, b"hello");

    assert_eq!(bridges.write_from_sandbox(&data).unwrap(), Some(2));
    assert_eq!(bridges.pending_sandbox_bytes(&key), 3);
    assert_eq!(bridges.flush_pending_sandbox_writes().unwrap(), 2);
    assert_eq!(bridges.pending_sandbox_bytes(&key), 1);
    assert_eq!(bridges.flush_pending_sandbox_writes().unwrap(), 1);
    assert_eq!(bridges.pending_sandbox_bytes(&key), 0);
    assert_eq!(
        writes.borrow().as_slice(),
        &[b"he".to_vec(), b"ll".to_vec(), b"o".to_vec()]
    );
}

#[test]
fn tcp_bridge_table_enforces_per_sandbox_stream_limit() {
    let mut bridges = StackTcpBridgeTable::with_limits(StackTcpBridgeLimits {
        max_pending_sandbox_bytes: usize::MAX,
        max_streams: usize::MAX,
        max_streams_per_sandbox: 1,
    });
    let first = key("s1", 49152, v4(203, 0, 113, 10, 80));
    let second = key("s1", 49153, v4(203, 0, 113, 11, 80));

    bridges
        .try_insert(first, ReadableTcpStream { reads: VecDeque::new() })
        .unwrap();
    let error = match bridges.try_insert(second, ReadableTcpStream { reads: VecDeque::new() }) {
        Ok(_) => panic!("expected TCP bridge sandbox stream limit error"),
        Err(error) => error,
    };

    assert!(error
        .describe()
        .contains("TCP bridge sandbox stream limit"));
    assert_eq!(error, EgressError::LimitExceeded(BridgeLimit::TcpSandboxStreams));
    assert_eq!(bridges.len(), 1);
}

#[test]
fn bridge_table_rejects_pending_sandbox_bytes_over_limit() {
    let key = key("s1", 49152, v4(203, 0, 113, 10, 80));
    let writes = Rc::new(RefCell::new(Vec::new()));
    let mut bridges = StackTcpBridgeTable::with_limits(StackTcpBridgeLimits {
        max_pending_sandbox_bytes: 3,
        max_streams: usize::MAX,
        max_streams_per_sandbox: usize::MAX,
    });
    bridges.insert(
        key.clone(),
        PartialWriteTcpStream {
            max_write: 1,
            writes,
        },
    );

    assert_eq!(bridges.write_from_sandbox(&tcp_data(&key, b"abc")).unwrap(), Some(1));
    assert_eq!(bridges.pending_sandbox_bytes(&key), 2);
    let error = bridges.write_from_sandbox(&tcp_data(&key, b"de")).unwrap_err();

    assert!(error.describe().contains("pending sandbox buffer limit"));
    assert_eq!(bridges.pending_sandbox_bytes(&key), 2);
}

#[test]
fn writes_to_unknown_flows_are_ignored() {
    let mut bridges: StackTcpBridgeTable<ReadableTcpStream> = StackTcpBridgeTable::new();
    let unknown = key("s1", 1, v4(203, 0, 113, 10, 80));
    assert_eq!(bridges.write_from_sandbox(&tcp_data(&unknown, b"x")).unwrap(), None);
    assert_eq!(bridges.total_pending_sandbox_bytes(), 0);
    assert!(bridges.is_empty());
}

#[test]
fn first_payload_is_inspected_once_per_bridge() {
    let mut table: StackTcpBridgeTable<ReadableTcpStream> = StackTcpBridgeTable::new();
    let flow = key("s1", 40000, v4(203, 0, 113, 10, 80));
    assert_eq!(table.mark_first_payload_inspected(&flow), None);
    table
        .try_insert(flow.duplicate(), ReadableTcpStream { reads: VecDeque::new() })
        .unwrap();
    assert_eq!(table.mark_first_payload_inspected(&flow), Some(true));
    assert_eq!(table.mark_first_payload_inspected(&flow), Some(false));
    // A replacement stream starts a new first payload.
    table
        .try_insert(flow.duplicate(), ReadableTcpStream { reads: VecDeque::new() })
        .unwrap();
    assert_eq!(table.mark_first_payload_inspected(&flow), Some(true));
}

struct OverreportingTcpStream;

impl HostTcpStream for OverreportingTcpStream {
    fn write_from_sandbox(&mut self, bytes: &[u8]) -> Result<usize, EgressError> {
        Ok(bytes.len() + 1)
    }

    fn read_to_sandbox(&mut self, max_bytes: usize) -> Result<Vec<u8>, EgressError> {
        Ok(vec![7; max_bytes + 1])
    }
}

#[test]
fn host_streams_that_overreport_are_errors_not_data() {
    let mut table: StackTcpBridgeTable<OverreportingTcpStream> = StackTcpBridgeTable::new();
    let flow = key("s1", 40000, v4(203, 0, 113, 10, 80));
    table.try_insert(flow.duplicate(), OverreportingTcpStream).unwrap();
    let data = StackTcpData {
        sandbox_id: SandboxId::new("s1"),
        frontend: FrontendKind::Tun,
        source: v4(10, 0, 0, 2, 40000),
        destination: v4(203, 0, 113, 10, 80),
        bytes: vec![1, 2, 3],
    };
    assert!(matches!(table.write_from_sandbox(&data), Err(EgressError::StreamIo(_))));
    assert_eq!(table.pending_sandbox_bytes(&flow), 0);
    assert!(matches!(
        table.read_to_sandbox_with_budget(4, 8, 8, 64),
        Err(EgressError::StreamIo(_))
    ));
    assert_eq!(table.read_cursor(), 0);
}

#[test]
fn read_passes_without_budget_or_streams_succeed_without_reading() {
    let mut empty: StackTcpBridgeTable<OverreportingTcpStream> = StackTcpBridgeTable::new();
    assert!(empty.read_to_sandbox_with_budget(4, 8, 8, 64).unwrap().reads.is_empty());
    let mut table: StackTcpBridgeTable<OverreportingTcpStream> = StackTcpBridgeTable::new();
    table
        .try_insert(key("s1", 40000, v4(203, 0, 113, 10, 80)), OverreportingTcpStream)
        .unwrap();
    assert!(table.read_to_sandbox_with_budget(4, 8, 0, 64).unwrap().reads.is_empty());
    assert!(table.read_to_sandbox_with_budget(4, 8, 8, 0).unwrap().reads.is_empty());
}

#[test]
fn host_write_settles_to_accepted_count_and_queued_rest() {
    assert_eq!(settle_host_write(b"hello", Ok(2), 8), (Ok(2), b"llo".to_vec()));
    assert_eq!(settle_host_write(b"hello", Ok(5), 0), (Ok(5), Vec::new()));
    assert_eq!(
        settle_host_write(b"hello", Ok(1), 3),
        (Err(EgressError::LimitExceeded(BridgeLimit::PendingSandboxBytes)), Vec::new())
    );
    let (over, rest) = settle_host_write(b"hi", Ok(3), 8);
    assert!(matches!(over, Err(EgressError::StreamIo(_))));
    assert!(rest.is_empty());
    let failure = EgressError::StreamIo("reset".into());
    assert_eq!(settle_host_write(b"hi", Err(failure.clone()), 8), (Err(failure), Vec::new()));
}

#[test]
fn flush_write_settles_to_accepted_count_and_unsent_tail() {
    assert_eq!(settle_flush_write(b"llo", Ok(2)), (Ok(2), b"o".to_vec()));
    assert_eq!(settle_flush_write(b"o", Ok(1)), (Ok(1), Vec::new()));
    assert!(matches!(settle_flush_write(b"o", Ok(2)).0, Err(EgressError::StreamIo(_))));
}

#[test]
fn host_read_longer_than_asked_is_refused() {
    assert_eq!(checked_read(Ok(b"ab".to_vec()), 2), Ok(b"ab".to_vec()));
    assert!(matches!(checked_read(Ok(b"abc".to_vec()), 2), Err(EgressError::StreamIo(_))));
}
