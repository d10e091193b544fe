use foxprox::net::{
    normalized_listen_ports, AlphaBrokerError, FlowLimitError, HostEgressError, OutboundIpPacket, SmolTunError,
    StackError, TunRxToken,
};
use std::io;

#[test]
fn ip_permits_errors_compare_by_kind() {
    assert_eq!(HostEgressError::MissingPort, HostEgressError::MissingPort);
    assert_eq!(
        HostEgressError::Connect(io::Error::other("a")),
        HostEgressError::Connect(io::Error::other("b"))
    );
    assert_ne!(
        HostEgressError::Resolve(io::Error::other("a")),
        HostEgressError::Connect(io::Error::other("a"))
    );
    assert_ne!(HostEgressError::MissingPort, HostEgressError::NoResolvedAddress);
    assert_eq!(
        SmolTunError::Fcntl(io::Error::other("x")),
        SmolTunError::Fcntl(io::Error::from(io::ErrorKind::WouldBlock))
    );
    assert!(matches!(
        AlphaBrokerError::Tun(SmolTunError::Fcntl(io::Error::other("x"))),
        AlphaBrokerError::Tun(_)
    ));
}

#[test]
fn outbound_packets_are_never_empty() {
    assert_eq!(OutboundIpPacket::new(Vec::new()), Err(StackError::EmptyOutboundPacket));
    let packet = OutboundIpPacket::new(vec![0x45, 0]).unwrap();
    assert_eq!(packet.bytes(), &[0x45, 0]);
}

#[test]
fn tun_rx_token_hands_over_its_buffer() {
    let token = TunRxToken {
        buffer: vec![1, 2, 3],
    };
    assert_eq!(token.consume(), vec![1, 2, 3]);
}

#[test]
fn listen_ports_are_sorted_and_deduplicated() {
    assert_eq!(normalized_listen_ports(&vec![443, 80, 443, 22, 80]), vec![22, 80, 443]);
    assert_eq!(normalized_listen_ports(&Vec::new()), Vec::<u16>::new());
    assert_eq!(normalized_listen_ports(&vec![65535, 0]), vec![0, 65535]);
}

#[test]
fn stack_and_flow_errors_describe_themselves() {
    assert_eq!(
        StackError::EmptyOutboundPacket.describe(),
        "outbound packet must not be empty"
    );
    assert_eq!(StackError::MalformedPacket.describe(), "malformed packet");
    assert_eq!(
        StackError::Adapter("mtu".to_string()).describe(),
        "stack adapter error: mtu"
    );
    assert_eq!(
        FlowLimitError::ZeroLimit.describe(),
        "flow limit must be greater than zero"
    );
    assert_eq!(
        FlowLimitError::LimitReached { max_flows: 4096 }.describe(),
        "flow limit 4096 reached"
    );
}
