use foxprox::model::{DenialAction, IpAddress};
use foxprox::policy::{
    DestinationMatcher, DomainSuffix, EventKind, Hostname, HostnameAttribution,
    HostnameAttributionSource, HostnameConfidence, HostnameMismatch, HttpMethod,
    HttpMethodMatcher, HttpPathMatcher, HttpScheme, HttpSchemeMatcher, IpCidr, PolicyDecision,
    PolicyEngine, PolicyEvent, PolicyRule, PortMatcher, Protocol, ProtocolMatcher, QuicPolicy,
    RuleAction, RuleId, RuntimeConfig, UdpClassification,
};

fn v4(a: u8, b: u8, c: u8, d: u8) -> IpAddress {
    IpAddress::V4(u32::from_be_bytes([a, b, c, d]))
}

fn tcp_connect(ip: IpAddress, port: u16, hostname: Option<HostnameAttribution>) -> PolicyEvent {
    PolicyEvent {
        kind: EventKind::TcpConnectAttempt,
        protocol: Protocol::Tcp,
        destination_ip: Some(ip),
        destination_port: Some(port),
        hostname_attribution: hostname,
        explicit_hostname: None,
    }
}

fn http_request(
    method: HttpMethod,
    scheme: HttpScheme,
    host: &str,
    port: u16,
    path_query: &str,
) -> PolicyEvent {
    PolicyEvent {
        kind: EventKind::HttpRequest { method, scheme, path_query: path_query.to_string() },
        protocol: Protocol::Http,
        destination_ip: None,
        destination_port: Some(port),
        hostname_attribution: None,
        explicit_hostname: Some(Hostname::new(host)),
    }
}

fn icmp(icmp_type: u8, source: IpAddress, destination: IpAddress) -> PolicyEvent {
    PolicyEvent {
        kind: EventKind::IcmpMessage { icmp_type, source, destination },
        protocol: Protocol::Icmp,
        destination_ip: Some(destination),
        destination_port: None,
        hostname_attribution: None,
        explicit_hostname: None,
    }
}

#[test]
fn direct_external_dns_requires_broker_resolver() {
    let event = PolicyEvent {
        kind: EventKind::DnsQuery { direct_external: true },
        protocol: Protocol::Dns,
        destination_ip: Some(v4(8, 8, 8, 8)),
        destination_port: Some(53),
        hostname_attribution: None,
        explicit_hostname: Some(Hostname::new("example.com")),
    };

    let decision = PolicyEngine::new(RuntimeConfig::deny_by_default()).decide(&event);
    assert!(matches!(decision, PolicyDecision::RequireBrokerDns { .. }));
}

#[test]
fn unsupported_events_fail_closed_even_when_default_allows() {
    let event = PolicyEvent {
        kind: EventKind::Unsupported,
        protocol: Protocol::Unsupported,
        destination_ip: None,
        destination_port: None,
        hostname_attribution: None,
        explicit_hostname: None,
    };

    let decision = PolicyEngine::new(RuntimeConfig::allow_by_default()).decide(&event);
    assert!(matches!(decision, PolicyDecision::FailClosed { .. }));
}

#[test]
fn policy_allows_tcp_by_cidr_without_frontend_specific_data() {
    let mut config = RuntimeConfig::deny_by_default();
    let mut rule = PolicyRule::allow(RuleId::new("allow-doc-net"));
    rule.protocol = ProtocolMatcher::Exact(Protocol::Tcp);
    rule.destination = DestinationMatcher::Cidr(IpCidr { network: v4(203, 0, 113, 0), prefix_len: 24 });
    rule.port = PortMatcher::Exact(443);
    config.rules.push(rule);

    let event = tcp_connect(v4(203, 0, 113, 10), 443, None);

    let decision = PolicyEngine::new(config).decide(&event);
    assert!(decision.is_allowed());
}

#[test]
fn allow_rule_can_set_timeout_override() {
    let mut config = RuntimeConfig::deny_by_default();
    let mut rule = PolicyRule::allow(RuleId::new("quic-timeout"));
    rule.protocol = ProtocolMatcher::Exact(Protocol::QuicCandidate);
    rule.timeout_override_millis = Some(240_000);
    config.quic_policy = QuicPolicy::AllowCandidates;
    config.rules.push(rule);
    let event = PolicyEvent {
        kind: EventKind::UdpFlowAttempt { classification: UdpClassification::QuicCandidate },
        protocol: Protocol::QuicCandidate,
        destination_ip: Some(v4(203, 0, 113, 10)),
        destination_port: Some(443),
        hostname_attribution: None,
        explicit_hostname: None,
    };

    let decision = PolicyEngine::new(config).decide(&event);
    let PolicyDecision::Allow(allow) = decision else {
        panic!("expected allow");
    };
    assert_eq!(allow.timeout_override_millis, Some(240_000));
}

#[test]
fn domain_rule_requires_configured_attribution_confidence() {
    let mut config = RuntimeConfig::deny_by_default();
    let mut rule = PolicyRule::allow(RuleId::new("domain"));
    rule.destination = DestinationMatcher::DomainSuffix(DomainSuffix::new("example.com"));
    rule.minimum_hostname_confidence = HostnameConfidence::Medium;
    config.rules.push(rule);

    let event = tcp_connect(
        v4(203, 0, 113, 10),
        443,
        Some(HostnameAttribution::new(
            Hostname::new("www.example.com"),
            HostnameAttributionSource::BrokerDns,
            HostnameConfidence::Medium,
        )),
    );

    assert!(PolicyEngine::new(config).decide(&event).is_allowed());
}

#[test]
fn transparent_http_can_use_host_method_path_without_raw_parser_type() {
    let mut config = RuntimeConfig::deny_by_default();
    let mut rule = PolicyRule::allow(RuleId::new("http-domain"));
    rule.destination = DestinationMatcher::DomainSuffix(DomainSuffix::new("example.com"));
    rule.protocol = ProtocolMatcher::Exact(Protocol::Http);
    config.rules.push(rule);

    let event = http_request(HttpMethod::Get, HttpScheme::Http, "www.example.com", 80, "/index.html");

    assert!(PolicyEngine::new(config).decide(&event).is_allowed());
}

#[test]
fn http_scheme_method_and_path_matchers_are_enforced() {
    let mut config = RuntimeConfig::deny_by_default();
    let mut rule = PolicyRule::allow(RuleId::new("http-api"));
    rule.protocol = ProtocolMatcher::Exact(Protocol::Http);
    rule.http_scheme = HttpSchemeMatcher::Exact(HttpScheme::Http);
    rule.http_method = HttpMethodMatcher::Exact(HttpMethod::Get);
    rule.http_path = HttpPathMatcher::Prefix("/api/".to_string());
    config.rules.push(rule);

    let allowed = http_request(HttpMethod::Get, HttpScheme::Http, "example.com", 80, "/api/items");
    let wrong_scheme =
        http_request(HttpMethod::Get, HttpScheme::Https, "example.com", 443, "/api/items");
    let denied = http_request(HttpMethod::Post, HttpScheme::Http, "example.com", 80, "/api/items");
    let engine = PolicyEngine::new(config);

    assert!(engine.decide(&allowed).is_allowed());
    assert!(!engine.decide(&wrong_scheme).is_allowed());
    assert!(!engine.decide(&denied).is_allowed());
}

#[test]
fn icmp_defaults_allow_essential_errors_and_gate_ping() {
    let essential = icmp(3, v4(203, 0, 113, 10), v4(10, 0, 0, 2));
    assert!(PolicyEngine::new(RuntimeConfig::deny_by_default()).decide(&essential).is_allowed());

    let ping = icmp(8, v4(10, 0, 0, 2), v4(203, 0, 113, 10));
    assert!(!PolicyEngine::new(RuntimeConfig::allow_by_default()).decide(&ping).is_allowed());
    let mut config = RuntimeConfig::deny_by_default();
    config.allow_ping = true;
    assert!(PolicyEngine::new(config).decide(&ping).is_allowed());

    let unusual = icmp(13, v4(10, 0, 0, 2), v4(203, 0, 113, 10));
    assert!(!PolicyEngine::new(RuntimeConfig::allow_by_default()).decide(&unusual).is_allowed());
}

#[test]
fn tls_without_sni_requires_explicit_ip_allow_even_when_default_allows() {
    let event = PolicyEvent {
        kind: EventKind::TlsClientHello { has_sni: false, mismatch: HostnameMismatch::Unavailable },
        protocol: Protocol::TlsClientHello,
        destination_ip: Some(v4(203, 0, 113, 10)),
        destination_port: Some(443),
        hostname_attribution: None,
        explicit_hostname: None,
    };

    let denied = PolicyEngine::new(RuntimeConfig::allow_by_default()).decide(&event);
    assert!(matches!(denied, PolicyDecision::Deny(_)));

    let mut config = RuntimeConfig::deny_by_default();
    let mut rule = PolicyRule::allow(RuleId::new("ip-https"));
    rule.protocol = ProtocolMatcher::Exact(Protocol::TlsClientHello);
    rule.destination = DestinationMatcher::Ip(v4(203, 0, 113, 10));
    rule.port = PortMatcher::Exact(443);
    config.rules.push(rule);

    assert!(PolicyEngine::new(config).decide(&event).is_allowed());
}

#[test]
fn direct_dot_candidate_is_denied_before_default_allow() {
    let event = tcp_connect(v4(203, 0, 113, 53), 853, None);

    let decision = PolicyEngine::new(RuntimeConfig::allow_by_default()).decide(&event);
    assert!(matches!(decision, PolicyDecision::Deny(_)));
}

#[test]
fn explicit_rule_can_allow_dot_candidate() {
    let event = tcp_connect(v4(203, 0, 113, 53), 853, None);
    let mut config = RuntimeConfig::deny_by_default();
    let mut rule = PolicyRule::allow(RuleId::new("allow-dot-lab"));
    rule.protocol = ProtocolMatcher::Exact(Protocol::Tcp);
    rule.destination = DestinationMatcher::Ip(v4(203, 0, 113, 53));
    rule.port = PortMatcher::Exact(853);
    config.rules.push(rule);

    assert!(PolicyEngine::new(config).decide(&event).is_allowed());
}

#[test]
fn quic_denies_by_default() {
    let event = PolicyEvent {
        kind: EventKind::UdpFlowAttempt { classification: UdpClassification::QuicCandidate },
        protocol: Protocol::QuicCandidate,
        destination_ip: Some(v4(203, 0, 113, 10)),
        destination_port: Some(443),
        hostname_attribution: None,
        explicit_hostname: None,
    };

    let decision = PolicyEngine::new(RuntimeConfig::deny_by_default()).decide(&event);
    assert!(matches!(decision, PolicyDecision::Deny(_)));
}

// Further cases of the evaluation order and the matchers.

#[test]
fn first_matching_rule_decides_and_later_rules_do_not() {
    let mut config = RuntimeConfig::allow_by_default();
    let mut deny_rule = PolicyRule::allow(RuleId::new("deny-80"));
    deny_rule.action = RuleAction::Deny(DenialAction::Reset);
    deny_rule.port = PortMatcher::Exact(80);
    config.rules.push(deny_rule);
    config.rules.push(PolicyRule::allow(RuleId::new("allow-all")));
    let engine = PolicyEngine::new(config);

    match engine.decide(&tcp_connect(v4(198, 51, 100, 1), 80, None)) {
        PolicyDecision::Deny(deny) => {
            assert_eq!(deny.action, DenialAction::Reset);
            assert_eq!(deny.rule_id.unwrap().as_str(), "deny-80");
            assert_eq!(deny.reason, "matched deny rule");
        }
        other => panic!("unexpected decision {other:?}"),
    }
    match engine.decide(&tcp_connect(v4(198, 51, 100, 1), 81, None)) {
        PolicyDecision::Allow(allow) => {
            assert_eq!(allow.rule_id.unwrap().as_str(), "allow-all");
            assert_eq!(allow.reason.as_deref(), Some("matched allow rule"));
        }
        other => panic!("unexpected decision {other:?}"),
    }
}

#[test]
fn default_policy_decides_when_no_rule_matches() {
    let event = tcp_connect(v4(198, 51, 100, 1), 443, None);
    match PolicyEngine::new(RuntimeConfig::deny_by_default()).decide(&event) {
        PolicyDecision::Deny(deny) => {
            assert_eq!(deny.action, DenialAction::Drop);
            assert!(deny.rule_id.is_none());
            assert_eq!(deny.reason, "default deny policy");
        }
        other => panic!("unexpected decision {other:?}"),
    }
    match PolicyEngine::new(RuntimeConfig::allow_by_default()).decide(&event) {
        PolicyDecision::Allow(allow) => {
            assert!(allow.rule_id.is_none());
            assert_eq!(allow.reason.as_deref(), Some("default allow policy"));
        }
        other => panic!("unexpected decision {other:?}"),
    }
}

#[test]
fn multicast_udp_is_dropped_even_with_an_allow_rule() {
    let mut config = RuntimeConfig::allow_by_default();
    config.rules.push(PolicyRule::allow(RuleId::new("allow-all")));
    let event = PolicyEvent {
        kind: EventKind::UdpFlowAttempt { classification: UdpClassification::MulticastOrBroadcast },
        protocol: Protocol::Udp,
        destination_ip: Some(v4(224, 0, 0, 251)),
        destination_port: Some(5353),
        hostname_attribution: None,
        explicit_hostname: None,
    };
    match PolicyEngine::new(config).decide(&event) {
        PolicyDecision::Deny(deny) => {
            assert_eq!(deny.action, DenialAction::Drop);
            assert_eq!(deny.reason, "multicast and broadcast UDP are denied by default");
        }
        other => panic!("unexpected decision {other:?}"),
    }
}

#[test]
fn tls_sni_mismatch_is_reset_even_with_an_allow_rule() {
    let mut config = RuntimeConfig::allow_by_default();
    config.rules.push(PolicyRule::allow(RuleId::new("allow-all")));
    let event = PolicyEvent {
        kind: EventKind::TlsClientHello { has_sni: true, mismatch: HostnameMismatch::Mismatch },
        protocol: Protocol::TlsClientHello,
        destination_ip: Some(v4(203, 0, 113, 10)),
        destination_port: Some(443),
        hostname_attribution: None,
        explicit_hostname: Some(Hostname::new("example.com")),
    };
    match PolicyEngine::new(config).decide(&event) {
        PolicyDecision::Deny(deny) => assert_eq!(deny.action, DenialAction::Reset),
        other => panic!("unexpected decision {other:?}"),
    }
}

#[test]
fn broker_resolver_on_853_is_not_a_dot_candidate() {
    let mut config = RuntimeConfig::allow_by_default();
    config.broker_dns_addrs.push(v4(10, 0, 0, 1));
    let event = tcp_connect(v4(10, 0, 0, 1), 853, None);
    assert!(PolicyEngine::new(config).decide(&event).is_allowed());
}

#[test]
fn hostname_and_cidr_matchers_follow_their_definitions() {
    let host = Hostname::new("api.example.com");
    assert!(host.is_subdomain_of(&DomainSuffix::new("example.com")));
    assert!(host.is_subdomain_of(&DomainSuffix::new("api.example.com")));
    assert!(!host.is_subdomain_of(&DomainSuffix::new("ample.com")));
    assert!(!Hostname::new("example.com").is_subdomain_of(&DomainSuffix::new("api.example.com")));

    let net = IpCidr { network: v4(203, 0, 113, 0), prefix_len: 24 };
    assert!(net.contains(v4(203, 0, 113, 255)));
    assert!(!net.contains(v4(203, 0, 114, 0)));
    assert!(IpCidr { network: v4(0, 0, 0, 0), prefix_len: 0 }.contains(v4(8, 8, 8, 8)));
    assert!(!IpCidr { network: v4(8, 8, 8, 8), prefix_len: 33 }.contains(v4(8, 8, 8, 8)));
    assert!(!net.contains(IpAddress::V6(1)));
    assert!(IpCidr { network: IpAddress::V6(0x2001_0db8 << 96), prefix_len: 32 }
        .contains(IpAddress::V6((0x2001_0db8 << 96) | 5)));
}

#[test]
fn hostname_rule_needs_enough_confidence() {
    let mut config = RuntimeConfig::deny_by_default();
    let mut rule = PolicyRule::allow(RuleId::new("exact-host"));
    rule.destination = DestinationMatcher::Hostname(Hostname::new("example.com"));
    config.rules.push(rule);
    let engine = PolicyEngine::new(config);
    let low = tcp_connect(
        v4(203, 0, 113, 10),
        443,
        Some(HostnameAttribution::new(
            Hostname::new("example.com"),
            HostnameAttributionSource::BrokerDns,
            HostnameConfidence::Medium,
        )),
    );
    assert!(!engine.decide(&low).is_allowed());
    let high = tcp_connect(
        v4(203, 0, 113, 10),
        443,
        Some(HostnameAttribution::new(
            Hostname::new("example.com"),
            HostnameAttributionSource::BrokerDns,
            HostnameConfidence::High,
        )),
    );
    assert!(engine.decide(&high).is_allowed());
}
