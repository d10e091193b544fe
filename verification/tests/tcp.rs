use foxprox::tcp::{InMemoryIpDevice, TcpRelayError, TcpRelayOnceStats};
use smoltcp::iface::{Config, Interface, SocketSet};
use smoltcp::phy::{Device, DeviceCapabilities, Medium, RxToken, TxToken};
use smoltcp::socket::tcp;
use smoltcp::time::Instant;
use smoltcp::wire::{HardwareAddress, IpAddress, IpCidr};
use std::cell::RefCell;
use std::rc::Rc;

/// Drives the library device through smoltcp's device interface.
struct Harness {
    device: Rc<RefCell<InMemoryIpDevice>>,
}

struct HarnessRx {
    token: foxprox::tcp::InMemoryRxToken,
}

struct HarnessTx {
    token: foxprox::tcp::InMemoryTxToken,
    device: Rc<RefCell<InMemoryIpDevice>>,
}

impl RxToken for HarnessRx {
    fn consume<R, F>(self, f: F) -> R
    where
        F: FnOnce(&[u8]) -> R,
    {
        let packet = self.token.consume();
        f(&packet)
    }
}

impl TxToken for HarnessTx {
    fn consume<R, F>(self, len: usize, f: F) -> R
    where
        F: FnOnce(&mut [u8]) -> R,
    {
        let mut packet = vec![0_u8; len];
        let result = f(&mut packet);
        self.token.consume(&mut *self.device.borrow_mut(), packet);
        result
    }
}

impl Device for Harness {
    type RxToken<'a>
        = HarnessRx
    where
        Self: 'a;
    type TxToken<'a>
        = HarnessTx
    where
        Self: 'a;

    fn receive(&mut self, _timestamp: Instant) -> Option<(Self::RxToken<'_>, Self::TxToken<'_>)> {
        let (rx, tx) = self.device.borrow_mut().receive()?;
        Some((
            HarnessRx { token: rx },
            HarnessTx {
                token: tx,
                device: Rc::clone(&self.device),
            },
        ))
    }

    fn transmit(&mut self, _timestamp: Instant) -> Option<Self::TxToken<'_>> {
        let token = self.device.borrow().transmit();
        Some(HarnessTx {
            token,
            device: Rc::clone(&self.device),
        })
    }

    fn capabilities(&self) -> DeviceCapabilities {
        let mut capabilities = DeviceCapabilities::default();
        capabilities.max_transmission_unit = self.device.borrow().mtu();
        capabilities.medium = Medium::Ip;
        capabilities.max_burst_size = Some(1);
        capabilities
    }
}

fn ipv4_tcp_syn_packet() -> Vec<u8> {
    ipv4_tcp_packet(1, 0, 0x02, &[])
}

fn ipv4_tcp_packet(seq: u32, ack: u32, flags: u8, payload: &[u8]) -> Vec<u8> {
    let mut tcp = vec![0_u8; 20 + payload.len()];
    tcp[0..2].copy_from_slice(&49152_u16.to_be_bytes());
    tcp[2..4].copy_from_slice(&8080_u16.to_be_bytes());
    tcp[4..8].copy_from_slice(&seq.to_be_bytes());
    tcp[8..12].copy_from_slice(&ack.to_be_bytes());
    tcp[12] = 5 << 4;
    tcp[13] = flags;
    tcp[14..16].copy_from_slice(&64240_u16.to_be_bytes());
    tcp[20..].copy_from_slice(payload);
    let mut packet = ipv4_packet(6, [10, 0, 0, 2], [10, 0, 0, 1], &tcp);
    let checksum = tcp_checksum(&packet);
    packet[36..38].copy_from_slice(&checksum.to_be_bytes());
    packet
}

fn ipv4_packet(protocol: u8, source: [u8; 4], destination: [u8; 4], payload: &[u8]) -> Vec<u8> {
    let total_length = 20 + payload.len();
    let mut packet = vec![0_u8; total_length];
    packet[0] = 0x45;
    packet[2..4].copy_from_slice(&(total_length as u16).to_be_bytes());
    packet[8] = 64;
    packet[9] = protocol;
    packet[12..16].copy_from_slice(&source);
    packet[16..20].copy_from_slice(&destination);
    packet[20..].copy_from_slice(payload);
    let checksum = foxprox::checksum::internet_checksum(&packet[..20]);
    packet[10..12].copy_from_slice(&checksum.to_be_bytes());
    packet
}

fn tcp_checksum(packet: &[u8]) -> u16 {
    let tcp = &packet[20..];
    let mut pseudo = Vec::new();
    pseudo.extend_from_slice(&packet[12..16]);
    pseudo.extend_from_slice(&packet[16..20]);
    pseudo.push(0);
    pseudo.push(6);
    pseudo.extend_from_slice(&(tcp.len() as u16).to_be_bytes());
    pseudo.extend_from_slice(tcp);
    foxprox::checksum::internet_checksum(&pseudo)
}

#[test]
fn smoltcp_ip_device_accepts_tcp_syn_and_emits_syn_ack() {
    let shared = Rc::new(RefCell::new(InMemoryIpDevice::new(1500)));
    shared.borrow_mut().push_rx(ipv4_tcp_syn_packet());
    let mut device = Harness {
        device: Rc::clone(&shared),
    };
    let mut config = Config::new(HardwareAddress::Ip);
    config.random_seed = 0x1234;
    let now = Instant::from_millis(0);
    let mut iface = Interface::new(config, &mut device, now);
    iface.update_ip_addrs(|ip_addrs| {
        ip_addrs
            .push(IpCidr::new(IpAddress::v4(10, 0, 0, 1), 24))
            .unwrap();
    });
    let tcp_rx_buffer = tcp::SocketBuffer::new(vec![0; 1024]);
    let tcp_tx_buffer = tcp::SocketBuffer::new(vec![0; 1024]);
    let tcp_socket = tcp::Socket::new(tcp_rx_buffer, tcp_tx_buffer);
    let mut sockets = SocketSet::new(vec![]);
    let handle = sockets.add(tcp_socket);
    sockets.get_mut::<tcp::Socket>(handle).listen(8080).unwrap();

    iface.poll(now, &mut device, &mut sockets);
    let outbound = shared.borrow_mut().take_tx();

    assert!(sockets.get::<tcp::Socket>(handle).is_active());
    let syn_ack = outbound
        .iter()
        .find(|packet| packet.len() >= 40 && packet[9] == 6)
        .expect("smoltcp emits TCP response packet");
    assert_eq!(syn_ack[0] >> 4, 4);
    assert_eq!(&syn_ack[12..16], &[10, 0, 0, 1]);
    assert_eq!(&syn_ack[16..20], &[10, 0, 0, 2]);
    assert_eq!(u16::from_be_bytes([syn_ack[20], syn_ack[21]]), 8080);
    assert_eq!(u16::from_be_bytes([syn_ack[22], syn_ack[23]]), 49152);
    assert_eq!(syn_ack[33] & 0x12, 0x12, "SYN and ACK flags are set");
}

#[test]
fn in_memory_device_queues_and_takes_packets() {
    let mut device = InMemoryIpDevice::new(576);
    assert_eq!(device.mtu(), 576);
    assert!(device.receive().is_none());
    device.push_rx(vec![1, 2, 3]);
    device.push_rx(vec![4]);
    let (rx, tx) = device.receive().unwrap();
    assert_eq!(rx.consume(), vec![1, 2, 3]);
    tx.consume(&mut device, vec![9, 9]);
    let token = device.transmit();
    token.consume(&mut device, vec![8]);
    assert_eq!(device.take_tx(), vec![vec![9, 9], vec![8]]);
    assert!(device.take_tx().is_empty());
    let (rx, _) = device.receive().unwrap();
    assert_eq!(rx.consume(), vec![4]);
}

#[test]
fn relay_stats_and_errors_compare_by_value() {
    let stats = TcpRelayOnceStats {
        sandbox_to_host_bytes: 5,
        host_to_sandbox_bytes: 5,
    };
    assert_eq!(stats, stats);
    assert_ne!(
        TcpRelayError::HostRead("x".into()),
        TcpRelayError::HostWrite("x".into())
    );
}

#[test]
fn relay_errors_describe_themselves() {
    assert_eq!(
        TcpRelayError::HostWrite("broken pipe".into()).describe(),
        "tcp-relay-host-write-error: broken pipe"
    );
    assert_eq!(
        TcpRelayError::SmoltcpRecv("Finished".into()).describe(),
        "tcp-relay-smoltcp-recv-error: Finished"
    );
}
