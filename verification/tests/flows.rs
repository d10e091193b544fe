use foxprox::flows::{
    attribution_from_explicit_destination, flow_idle_timeout, is_broker_dns_destination,
    udp_timeout, DnsAddressRecord, DnsAttributionCache, FlowState, FlowTable, UdpTimeouts,
};
use foxprox::model::{IpAddress, SocketAddress};
use foxprox::net::{ByteCounts, FlowKey, FlowLimitError, FlowProtocol};
use foxprox::model::DenialAction;
use foxprox::policy::{
    AllowDecision, DenyDecision, DestinationHost, Hostname, HostnameAttribution,
    HostnameAttributionSource, HostnameConfidence, PolicyDecision, UdpClassification,
};

fn allow(timeout_override_millis: Option<u64>) -> PolicyDecision {
    PolicyDecision::Allow(AllowDecision {
        rule_id: None,
        timeout_override_millis,
        reason: Some("test".into()),
    })
}

fn v4(a: u8, b: u8, c: u8, d: u8, port: u16) -> SocketAddress {
    SocketAddress {
        ip: IpAddress::V4(u32::from_be_bytes([a, b, c, d])),
        port,
    }
}

#[test]
fn flow_table_expires_each_flow_by_stored_timeout() {
    let now = 1_000_000u64;
    let mut table = FlowTable::new();
    let decision = allow(Some(5_000));
    let state = FlowState {
        key: FlowKey {
            source: v4(10, 0, 0, 2, 50000),
            destination: v4(203, 0, 113, 10, 443),
            protocol: FlowProtocol::Udp,
        },
        hostname: None,
        created_at_millis: now,
        last_seen_millis: now,
        idle_timeout_millis: flow_idle_timeout(&decision, 60_000),
        byte_counts: ByteCounts::new(1, 2),
        decision,
    };
    table.upsert(state);

    assert!(table.expire_by_flow_timeout(now + 4_000).is_empty());
    let expired = table.expire_by_flow_timeout(now + 5_000);
    assert_eq!(expired.len(), 1);
    assert!(table.is_empty());
}

#[test]
fn flow_table_enforces_configured_resource_limit() {
    let now = 1_000u64;
    let mut table = FlowTable::new();
    let decision = allow(None);
    let first = FlowState {
        key: FlowKey {
            source: v4(10, 0, 0, 2, 50000),
            destination: v4(203, 0, 113, 10, 443),
            protocol: FlowProtocol::Tcp,
        },
        hostname: None,
        created_at_millis: now,
        last_seen_millis: now,
        idle_timeout_millis: 60_000,
        byte_counts: ByteCounts::default(),
        decision: decision.clone(),
    };
    let mut replacement = first.clone();
    replacement.byte_counts = ByteCounts::new(10, 20);
    let second = FlowState {
        key: FlowKey {
            source: v4(10, 0, 0, 2, 50001),
            destination: v4(203, 0, 113, 11, 443),
            protocol: FlowProtocol::Tcp,
        },
        decision: decision.clone(),
        ..first.clone()
    };
    let max_flows = 1;

    table.try_upsert(first.clone(), max_flows).unwrap();
    table.try_upsert(replacement, max_flows).unwrap();
    assert_eq!(table.get(&first.key).unwrap().byte_counts.ingress, 10);
    assert_eq!(
        table.try_upsert(second, max_flows),
        Err(FlowLimitError::LimitReached { max_flows })
    );
    assert_eq!(table.try_upsert(first, 0), Err(FlowLimitError::ZeroLimit));
    assert_eq!(table.len(), 1);
}

#[test]
fn idle_expiry_uses_the_given_threshold_and_keeps_order() {
    let mut table = FlowTable::new();
    for (port, last_seen) in [(1u16, 100u64), (2, 900), (3, 50)] {
        table.upsert(FlowState {
            key: FlowKey {
                source: v4(10, 0, 0, 2, port),
                destination: v4(203, 0, 113, 10, 80),
                protocol: FlowProtocol::Tcp,
            },
            hostname: Some(HostnameAttribution::new(
                Hostname::new("example.com"),
                HostnameAttributionSource::BrokerDns,
                HostnameConfidence::Medium,
            )),
            created_at_millis: 0,
            last_seen_millis: last_seen,
            idle_timeout_millis: u64::MAX,
            byte_counts: ByteCounts::default(),
            decision: PolicyDecision::Deny(DenyDecision {
                action: DenialAction::Drop,
                rule_id: None,
                reason: "default deny policy".into(),
            }),
        });
    }
    let expired = table.expire_idle(1_000, 500);
    let ports: Vec<u16> = expired.iter().map(|state| state.key.source.port).collect();
    assert_eq!(ports, vec![1, 3]);
    assert_eq!(table.len(), 1);
    // A flow seen "after" now has been idle for zero time.
    assert!(table.expire_idle(0, 1).is_empty());
    let fail_closed = PolicyDecision::FailClosed { reason: "unsupported network event".into() };
    assert_eq!(flow_idle_timeout(&fail_closed, 42), 42);
    assert_eq!(flow_idle_timeout(&allow(None), 42), 42);
    assert_eq!(flow_idle_timeout(&allow(Some(7)), 42), 7);
}

#[test]
fn dns_attribution_cache_returns_medium_confidence_until_expiry() {
    let now = 10_000u64;
    let mut cache = DnsAttributionCache::new();
    let address = IpAddress::V4(u32::from_be_bytes([203, 0, 113, 10]));
    cache.observe(&Hostname::new("example.com"), &vec![address], now, 60_000);

    let attribution = cache.attribution_for(address, now + 1_000).unwrap();
    assert_eq!(attribution.confidence, HostnameConfidence::Medium);
    assert!(cache.attribution_for(address, now + 61_000).is_none());
}

#[test]
fn dns_response_records_feed_attribution_cache_without_wire_types() {
    let now = 0u64;
    let mut cache = DnsAttributionCache::new();
    cache.observe_address_records(
        &vec![DnsAddressRecord {
            hostname: Hostname::new("example.com"),
            addr: IpAddress::V4(u32::from_be_bytes([203, 0, 113, 10])),
            ttl_millis: 30_000,
        }],
        now,
    );

    let attribution = cache
        .attribution_for(IpAddress::V4(u32::from_be_bytes([203, 0, 113, 10])), now)
        .unwrap();
    assert_eq!(attribution.hostname.as_str(), "example.com");
    assert_eq!(attribution.confidence, HostnameConfidence::Medium);
}

#[test]
fn dns_attribution_expires_exactly_at_ttl_and_later_answers_replace_earlier() {
    let now = 0u64;
    let mut cache = DnsAttributionCache::new();
    let first = IpAddress::V4(u32::from_be_bytes([203, 0, 113, 10]));
    let second = IpAddress::V6(1);
    cache.observe(&Hostname::new("old.example"), &vec![first], now, 30_000);
    cache.observe(&Hostname::new("example.com"), &vec![first, second], now, 30_000);

    let a = cache.attribution_for(first, now).unwrap();
    assert_eq!(a.hostname.as_str(), "example.com");
    assert_eq!(a.source, HostnameAttributionSource::BrokerDns);
    assert_eq!(cache.attribution_for(second, now).unwrap().hostname.as_str(), "example.com");
    assert!(cache.attribution_for(IpAddress::V4(0), now).is_none());
    assert!(cache.attribution_for(first, 30_000).is_none());
    assert!(cache.attribution_for(first, 29_999).is_some());

    cache.observe_address_records(
        &vec![
            DnsAddressRecord { hostname: Hostname::new("a.example"), addr: second, ttl_millis: 5 },
            DnsAddressRecord { hostname: Hostname::new("b.example"), addr: second, ttl_millis: 50 },
        ],
        100,
    );
    assert_eq!(cache.attribution_for(second, 140).unwrap().hostname.as_str(), "b.example");
    assert!(cache.attribution_for(second, 150).is_none());
}

#[test]
fn explicit_destination_hostnames_are_high_confidence_attributions() {
    let attribution =
        attribution_from_explicit_destination(&DestinationHost::Hostname(Hostname::new("example.com")))
            .unwrap();
    assert_eq!(attribution.hostname.as_str(), "example.com");
    assert_eq!(attribution.source, HostnameAttributionSource::ExplicitProxyDestination);
    assert_eq!(attribution.confidence, HostnameConfidence::High);
    assert!(attribution_from_explicit_destination(&DestinationHost::Ip(IpAddress::V4(1))).is_none());
}

#[test]
fn broker_dns_destination_needs_port_53_and_a_broker_address() {
    let broker = vec![IpAddress::V4(u32::from_be_bytes([10, 0, 0, 1]))];
    assert!(is_broker_dns_destination(v4(10, 0, 0, 1, 53), &broker));
    assert!(!is_broker_dns_destination(v4(10, 0, 0, 1, 5353), &broker));
    assert!(!is_broker_dns_destination(v4(8, 8, 8, 8, 53), &broker));
    assert!(!is_broker_dns_destination(v4(10, 0, 0, 1, 53), &Vec::new()));
}

#[test]
fn udp_timeouts_follow_the_flow_class() {
    let timeouts = UdpTimeouts { dns: 5_000, quic: 30_000, ntp_like: 10_000, generic: 60_000 };
    assert_eq!(udp_timeout(UdpClassification::Dns, &timeouts), 5_000);
    assert_eq!(udp_timeout(UdpClassification::QuicCandidate, &timeouts), 30_000);
    assert_eq!(udp_timeout(UdpClassification::NtpLike, &timeouts), 10_000);
    assert_eq!(udp_timeout(UdpClassification::Generic, &timeouts), 60_000);
    assert_eq!(udp_timeout(UdpClassification::MulticastOrBroadcast, &timeouts), 60_000);
}
