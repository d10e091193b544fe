//! Deterministic policy evaluation over normalized network events.
//!
//! Unsupported events fail closed, and the fixed safety checks (broker DNS,
//! direct DNS-over-TLS, multicast, QUIC, ICMP, TLS SNI) are applied before
//! the configured rules, which are tried in order; the default policy
//! answers only what no rule matched.

use vstd::prelude::*;
use vstd::string::StrSliceExecFns;

use crate::model::{DenialAction, IpAddress};
use crate::text::{chars_match_at, has_prefix};

verus! {

// ---------------------------------------------------------------------------
// Events as the policy reads them.

/// Protocol of a normalized event.
#[derive(Clone, Copy, Debug, PartialEq, Eq, Hash, Structural)]
pub enum Protocol {
    Tcp,
    Udp,
    Dns,
    Http,
    HttpsConnect,
    TlsClientHello,
    Socks,
    Quic,
    QuicCandidate,
    Icmp,
    Unsupported,
}

/// How a UDP flow was classified from its ports and addresses.
#[derive(Clone, Copy, Debug, PartialEq, Eq, Hash, Structural)]
pub enum UdpClassification {
    Dns,
    Generic,
    MulticastOrBroadcast,
    NtpLike,
    QuicCandidate,
}

/// How a TLS server name compares with the DNS attribution of its
/// destination.
#[derive(Clone, Copy, Debug, PartialEq, Eq, Hash, Structural)]
pub enum HostnameMismatch {
    Match,
    Mismatch,
    Unavailable,
}

/// HTTP request method.
#[derive(Clone, Copy, Debug, PartialEq, Eq, Hash, Structural)]
pub enum HttpMethod {
    Get,
    Head,
    Post,
    Put,
    Delete,
    Connect,
    Options,
    Trace,
    Patch,
}

/// HTTP request scheme.
#[derive(Clone, Copy, Debug, PartialEq, Eq, Hash, Structural)]
pub enum HttpScheme {
    Http,
    Https,
}

/// How sure the broker is of the hostname it attributed to a destination.
#[derive(Clone, Copy, Debug, PartialEq, Eq, Hash, Structural)]
pub enum HostnameConfidence {
    Low,
    Medium,
    High,
}

impl HostnameConfidence {
    /// Position in the order `Low < Medium < High`.
    pub open spec fn rank(self) -> int {
        match self {
            HostnameConfidence::Low => 0,
            HostnameConfidence::Medium => 1,
            HostnameConfidence::High => 2,
        }
    }

    /// Whether this confidence reaches `minimum`.
    pub fn at_least(&self, minimum: HostnameConfidence) -> (b: bool)
        ensures
            b == (self.rank() >= minimum.rank()),
    {
        let a: u8 = match self {
            HostnameConfidence::Low => 0,
            HostnameConfidence::Medium => 1,
            HostnameConfidence::High => 2,
        };
        let b: u8 = match minimum {
            HostnameConfidence::Low => 0,
            HostnameConfidence::Medium => 1,
            HostnameConfidence::High => 2,
        };
        a >= b
    }
}

/// Where an attributed hostname came from.
#[derive(Clone, Copy, Debug, PartialEq, Eq, Hash, Structural)]
pub enum HostnameAttributionSource {
    BrokerDns,
    ExplicitProxyDestination,
}

/// A DNS hostname.
#[derive(Clone, Debug, PartialEq, Eq, Hash)]
pub struct Hostname {
    value: String,
}

impl View for Hostname {
    type V = Seq<char>;

    closed spec fn view(&self) -> Seq<char> {
        self.value@
    }
}

/// A domain that rules match together with its subdomains.
#[derive(Clone, Debug, PartialEq, Eq, Hash)]
pub struct DomainSuffix {
    value: String,
}

impl View for DomainSuffix {
    type V = Seq<char>;

    closed spec fn view(&self) -> Seq<char> {
        self.value@
    }
}

/// `host` is `suffix` itself or a name below it.
pub open spec fn is_subdomain(host: Seq<char>, suffix: Seq<char>) -> bool {
    host == suffix || (host.len() > suffix.len() && suffix.is_suffix_of(host) && host[host.len()
        - suffix.len() - 1] == '.')
}

impl Hostname {
    pub fn new(value: &str) -> (h: Hostname)
        ensures
            h@ == value@,
    {
        Hostname { value: value.to_owned() }
    }

    pub fn as_str(&self) -> (s: &str)
        ensures
            s@ == self@,
    {
        self.value.as_str()
    }

    /// A copy of this hostname.
    pub fn duplicate(&self) -> (h: Hostname)
        ensures
            h == *self,
    {
        Hostname { value: self.value.clone() }
    }

    /// Whether both hostnames are the same name.
    pub fn same_name(&self, other: &Hostname) -> (same: bool)
        ensures
            same == (self@ == other@),
    {
        self.value == other.value
    }

    /// Whether this hostname is `suffix` or a name below it.
    pub fn is_subdomain_of(&self, suffix: &DomainSuffix) -> (b: bool)
        ensures
            b == is_subdomain(self@, suffix@),
    {
        let host = self.value.as_str();
        let tail = suffix.value.as_str();
        let n = host.unicode_len();
        let m = tail.unicode_len();
        if n == m {
            let same = chars_match_at(host, 0, tail);
            proof {
                if same {
                    assert(host@.subrange(0, m as int) =~= host@);
                }
                if host@ == tail@ {
                    assert(host@.subrange(0, m as int) =~= host@);
                }
            }
            return same;
        }
        if n < m {
            return false;
        }
        let start = n - m;
        let tail_matches = chars_match_at(host, start, tail);
        if !tail_matches {
            return false;
        }
        host.get_char(start - 1) == '.'
    }
}

impl DomainSuffix {
    pub fn new(value: &str) -> (s: DomainSuffix)
        ensures
            s@ == value@,
    {
        DomainSuffix { value: value.to_owned() }
    }

    pub fn as_str(&self) -> (s: &str)
        ensures
            s@ == self@,
    {
        self.value.as_str()
    }
}

/// A hostname attributed to a destination address.
#[derive(Clone, Debug, PartialEq, Eq)]
pub struct HostnameAttribution {
    pub hostname: Hostname,
    pub source: HostnameAttributionSource,
    pub confidence: HostnameConfidence,
}

impl HostnameAttribution {
    pub fn new(
        hostname: Hostname,
        source: HostnameAttributionSource,
        confidence: HostnameConfidence,
    ) -> (a: HostnameAttribution)
        ensures
            a == (HostnameAttribution { hostname, source, confidence }),
    {
        HostnameAttribution { hostname, source, confidence }
    }
}

/// The destination an explicit proxy request named: a hostname or an
/// address.
#[derive(Clone, Debug, PartialEq, Eq)]
pub enum DestinationHost {
    Hostname(Hostname),
    Ip(IpAddress),
}

/// What kind of event the policy judges, with the details that its fixed
/// checks and request matchers read.
#[derive(Clone, Debug, PartialEq, Eq)]
pub enum EventKind {
    DnsQuery { direct_external: bool },
    TcpConnectAttempt,
    UdpFlowAttempt { classification: UdpClassification },
    HttpRequest { method: HttpMethod, scheme: HttpScheme, path_query: String },
    HttpsConnect,
    SocksConnect,
    TlsClientHello { has_sni: bool, mismatch: HostnameMismatch },
    IcmpMessage { icmp_type: u8, source: IpAddress, destination: IpAddress },
    Unsupported,
}

/// A normalized network event as the policy reads it: its kind, protocol,
/// destination, and the hostnames known for the destination.
#[derive(Clone, Debug, PartialEq, Eq)]
pub struct PolicyEvent {
    pub kind: EventKind,
    pub protocol: Protocol,
    pub destination_ip: Option<IpAddress>,
    pub destination_port: Option<u16>,
    pub hostname_attribution: Option<HostnameAttribution>,
    pub explicit_hostname: Option<Hostname>,
}

// ---------------------------------------------------------------------------
// Rules and configuration.

/// Identifier of a configured rule.
#[derive(Clone, Debug, PartialEq, Eq, Hash)]
pub struct RuleId {
    value: String,
}

impl View for RuleId {
    type V = Seq<char>;

    closed spec fn view(&self) -> Seq<char> {
        self.value@
    }
}

impl RuleId {
    pub fn new(value: &str) -> (id: RuleId)
        ensures
            id@ == value@,
    {
        RuleId { value: value.to_owned() }
    }

    pub fn as_str(&self) -> (s: &str)
        ensures
            s@ == self@,
    {
        self.value.as_str()
    }

    /// A copy of this identifier.
    pub fn duplicate(&self) -> (id: RuleId)
        ensures
            id == *self,
    {
        RuleId { value: self.value.clone() }
    }
}

/// Which protocols a rule accepts.
#[derive(Clone, Copy, Debug, PartialEq, Eq, Hash, Structural)]
pub enum ProtocolMatcher {
    Any,
    Exact(Protocol),
}

/// Which destination ports a rule accepts.
#[derive(Clone, Copy, Debug, PartialEq, Eq, Hash, Structural)]
pub enum PortMatcher {
    Any,
    Exact(u16),
}

impl PortMatcher {
    pub open spec fn accepts(self, port: Option<u16>) -> bool {
        match self {
            PortMatcher::Any => true,
            PortMatcher::Exact(expected) => port == Some(expected),
        }
    }

    /// Whether `port` satisfies this matcher.
    pub fn matches(&self, port: Option<u16>) -> (m: bool)
        ensures
            m == self.accepts(port),
    {
        match self {
            PortMatcher::Any => true,
            PortMatcher::Exact(expected) => match port {
                Some(p) => p == *expected,
                None => false,
            },
        }
    }
}

/// An IP network: an address and the number of leading bits that matter.
#[derive(Clone, Copy, Debug, PartialEq, Eq, Hash, Structural)]
pub struct IpCidr {
    pub network: IpAddress,
    pub prefix_len: u8,
}

/// `ip` has the family of the network and agrees with it on the network's
/// leading `prefix_len` bits (a prefix longer than the address contains
/// nothing).
pub open spec fn cidr_contains(cidr: IpCidr, ip: IpAddress) -> bool {
    match cidr.network {
        IpAddress::V4(net) => match ip {
            IpAddress::V4(addr) => cidr.prefix_len <= 32 && (cidr.prefix_len == 0 || net >> ((32
                - cidr.prefix_len) as u32) == addr >> ((32 - cidr.prefix_len) as u32)),
            IpAddress::V6(_) => false,
        },
        IpAddress::V6(net) => match ip {
            IpAddress::V6(addr) => cidr.prefix_len <= 128 && (cidr.prefix_len == 0 || net >> ((
            128 - cidr.prefix_len) as u32) == addr >> ((128 - cidr.prefix_len) as u32)),
            IpAddress::V4(_) => false,
        },
    }
}

impl IpCidr {
    /// Whether `ip` lies in this network.
    pub fn contains(&self, ip: IpAddress) -> (c: bool)
        ensures
            c == cidr_contains(*self, ip),
    {
        let p = self.prefix_len;
        match self.network {
            IpAddress::V4(net) => match ip {
                IpAddress::V4(addr) => {
                    if p > 32 {
                        false
                    } else if p == 0 {
                        true
                    } else {
                        let shift: u32 = (32 - p) as u32;
                        net >> shift == addr >> shift
                    }
                },
                IpAddress::V6(_) => false,
            },
            IpAddress::V6(net) => match ip {
                IpAddress::V6(addr) => {
                    if p > 128 {
                        false
                    } else if p == 0 {
                        true
                    } else {
                        let shift: u32 = (128 - p) as u32;
                        net >> shift == addr >> shift
                    }
                },
                IpAddress::V4(_) => false,
            },
        }
    }
}

/// Which destinations a rule accepts: an address, a network, a hostname,
/// or a domain with its subdomains.
#[derive(Clone, Debug, PartialEq, Eq)]
pub enum DestinationMatcher {
    Any,
    Ip(IpAddress),
    Cidr(IpCidr),
    Hostname(Hostname),
    DomainSuffix(DomainSuffix),
}

/// Which HTTP request schemes a rule accepts.
#[derive(Clone, Copy, Debug, PartialEq, Eq, Hash, Structural)]
pub enum HttpSchemeMatcher {
    Any,
    Exact(HttpScheme),
}

/// Which HTTP request methods a rule accepts.
#[derive(Clone, Copy, Debug, PartialEq, Eq, Hash, Structural)]
pub enum HttpMethodMatcher {
    Any,
    Exact(HttpMethod),
}

/// Which HTTP request paths a rule accepts: one path, or those with a prefix.
#[derive(Clone, Debug, PartialEq, Eq)]
pub enum HttpPathMatcher {
    Any,
    Exact(String),
    Prefix(String),
}

/// What a matching rule decides.
#[derive(Clone, Copy, Debug, PartialEq, Eq, Hash, Structural)]
pub enum RuleAction {
    Allow,
    Deny(DenialAction),
}

/// A configured rule: it matches an event when every matcher accepts it.
#[derive(Clone, Debug, PartialEq, Eq)]
pub struct PolicyRule {
    pub id: RuleId,
    pub action: RuleAction,
    pub protocol: ProtocolMatcher,
    pub destination: DestinationMatcher,
    pub port: PortMatcher,
    pub minimum_hostname_confidence: HostnameConfidence,
    pub http_scheme: HttpSchemeMatcher,
    pub http_method: HttpMethodMatcher,
    pub http_path: HttpPathMatcher,
    pub timeout_override_millis: Option<u64>,
}

impl PolicyRule {
    /// A rule that allows every event, to be narrowed by its matchers.
    pub fn allow(id: RuleId) -> (rule: PolicyRule)
        ensures
            rule == (PolicyRule {
                id,
                action: RuleAction::Allow,
                protocol: ProtocolMatcher::Any,
                destination: DestinationMatcher::Any,
                port: PortMatcher::Any,
                minimum_hostname_confidence: HostnameConfidence::High,
                http_scheme: HttpSchemeMatcher::Any,
                http_method: HttpMethodMatcher::Any,
                http_path: HttpPathMatcher::Any,
                timeout_override_millis: None,
            }),
    {
        PolicyRule {
            id,
            action: RuleAction::Allow,
            protocol: ProtocolMatcher::Any,
            destination: DestinationMatcher::Any,
            port: PortMatcher::Any,
            minimum_hostname_confidence: HostnameConfidence::High,
            http_scheme: HttpSchemeMatcher::Any,
            http_method: HttpMethodMatcher::Any,
            http_path: HttpPathMatcher::Any,
            timeout_override_millis: None,
        }
    }
}

/// Whether DNS queries may go to resolvers other than the broker's.
#[derive(Clone, Copy, Debug, PartialEq, Eq, Hash, Structural)]
pub enum DirectDnsPolicy {
    DenyExternal,
    AllowExternal,
}

/// Whether QUIC candidate flows need an allow rule.
#[derive(Clone, Copy, Debug, PartialEq, Eq, Hash, Structural)]
pub enum QuicPolicy {
    DenyByDefault,
    AllowCandidates,
}

/// The decision for events that no check and no rule decides.
#[derive(Clone, Copy, Debug, PartialEq, Eq, Hash, Structural)]
pub enum DefaultPolicy {
    Allow,
    Deny,
}

/// The policy configuration of a broker.
#[derive(Clone, Debug, PartialEq, Eq)]
pub struct RuntimeConfig {
    pub default_policy: DefaultPolicy,
    pub direct_dns_policy: DirectDnsPolicy,
    pub quic_policy: QuicPolicy,
    pub allow_ping: bool,
    pub broker_dns_addrs: Vec<IpAddress>,
    pub rules: Vec<PolicyRule>,
}

impl RuntimeConfig {
    /// No rules, everything not otherwise decided is denied; external DNS,
    /// QUIC candidates and ping are denied.
    pub fn deny_by_default() -> (config: RuntimeConfig)
        ensures
            config.default_policy == DefaultPolicy::Deny,
            config.direct_dns_policy == DirectDnsPolicy::DenyExternal,
            config.quic_policy == QuicPolicy::DenyByDefault,
            !config.allow_ping,
            config.broker_dns_addrs@ == Seq::<IpAddress>::empty(),
            config.rules@ == Seq::<PolicyRule>::empty(),
    {
        RuntimeConfig {
            default_policy: DefaultPolicy::Deny,
            direct_dns_policy: DirectDnsPolicy::DenyExternal,
            quic_policy: QuicPolicy::DenyByDefault,
            allow_ping: false,
            broker_dns_addrs: Vec::new(),
            rules: Vec::new(),
        }
    }

    /// As `deny_by_default`, except that what nothing else decides is
    /// allowed.
    pub fn allow_by_default() -> (config: RuntimeConfig)
        ensures
            config.default_policy == DefaultPolicy::Allow,
            config.direct_dns_policy == DirectDnsPolicy::DenyExternal,
            config.quic_policy == QuicPolicy::DenyByDefault,
            !config.allow_ping,
            config.broker_dns_addrs@ == Seq::<IpAddress>::empty(),
            config.rules@ == Seq::<PolicyRule>::empty(),
    {
        RuntimeConfig {
            default_policy: DefaultPolicy::Allow,
            direct_dns_policy: DirectDnsPolicy::DenyExternal,
            quic_policy: QuicPolicy::DenyByDefault,
            allow_ping: false,
            broker_dns_addrs: Vec::new(),
            rules: Vec::new(),
        }
    }
}

// ---------------------------------------------------------------------------
// Decisions.

/// An allow decision, with the rule that gave it, if any.
#[derive(Clone, Debug, PartialEq, Eq)]
pub struct AllowDecision {
    pub rule_id: Option<RuleId>,
    pub timeout_override_millis: Option<u64>,
    pub reason: Option<String>,
}

/// A deny decision: how to answer the denied traffic, and why.
#[derive(Clone, Debug, PartialEq, Eq)]
pub struct DenyDecision {
    pub action: DenialAction,
    pub rule_id: Option<RuleId>,
    pub reason: String,
}

/// What the policy decided for an event.
#[derive(Clone, Debug, PartialEq, Eq)]
pub enum PolicyDecision {
    Allow(AllowDecision),
    Deny(DenyDecision),
    FailClosed { reason: String },
    RequireBrokerDns { reason: String },
}

impl PolicyDecision {
    pub fn is_allowed(&self) -> (allowed: bool)
        ensures
            allowed == (self is Allow),
    {
        match self {
            PolicyDecision::Allow(_) => true,
            _ => false,
        }
    }
}

/// How a denial asks for the denied traffic to be answered; nothing for a
/// decision that is not a denial.
pub open spec fn denial_action(d: PolicyDecision) -> Option<DenialAction> {
    match d {
        PolicyDecision::Deny(x) => Some(x.action),
        _ => None,
    }
}

/// The denial action of `decision`, if it is a denial.
pub fn decision_denial_action(decision: &PolicyDecision) -> (action: Option<DenialAction>)
    ensures
        action == denial_action(*decision),
{
    match decision {
        PolicyDecision::Deny(deny) => Some(deny.action),
        _ => None,
    }
}

/// `d` allows, naming `rule_id` and `timeout`, for `reason`.
pub open spec fn allowed_with(
    d: PolicyDecision,
    rule_id: Option<RuleId>,
    timeout: Option<u64>,
    reason: Seq<char>,
) -> bool {
    match d {
        PolicyDecision::Allow(a) => a.rule_id == rule_id && a.timeout_override_millis == timeout
            && match a.reason {
            Some(r) => r@ == reason,
            None => false,
        },
        _ => false,
    }
}

/// `d` denies with `action`, naming `rule_id`, for `reason`.
pub open spec fn denied_with(
    d: PolicyDecision,
    action: DenialAction,
    rule_id: Option<RuleId>,
    reason: Seq<char>,
) -> bool {
    match d {
        PolicyDecision::Deny(x) => x.action == action && x.rule_id == rule_id && x.reason@
            == reason,
        _ => false,
    }
}

/// `d` fails closed for `reason`.
pub open spec fn fails_closed_with(d: PolicyDecision, reason: Seq<char>) -> bool {
    match d {
        PolicyDecision::FailClosed { reason: r } => r@ == reason,
        _ => false,
    }
}

/// `d` sends the query to the broker's resolver, for `reason`.
pub open spec fn requires_broker_dns_with(d: PolicyDecision, reason: Seq<char>) -> bool {
    match d {
        PolicyDecision::RequireBrokerDns { reason: r } => r@ == reason,
        _ => false,
    }
}

// ---------------------------------------------------------------------------
// Rule matching.

/// The protocol matcher accepts `protocol`.
pub open spec fn protocol_accepts(matcher: ProtocolMatcher, protocol: Protocol) -> bool {
    match matcher {
        ProtocolMatcher::Any => true,
        ProtocolMatcher::Exact(expected) => expected == protocol,
    }
}

/// Kinds of event that carry a hostname their client named.
pub open spec fn names_host(kind: EventKind) -> bool {
    match kind {
        EventKind::DnsQuery { .. } => true,
        EventKind::HttpRequest { .. } => true,
        EventKind::HttpsConnect => true,
        EventKind::TlsClientHello { .. } => true,
        EventKind::SocksConnect => true,
        _ => false,
    }
}

/// The hostname a rule with `minimum` confidence may match: the attributed
/// one when it is sure enough, and without attribution the hostname the
/// client named, for the kinds of event that name one.
pub open spec fn matchable_hostname(event: PolicyEvent, minimum: HostnameConfidence) -> Option<
    Hostname,
> {
    match event.hostname_attribution {
        Some(a) => if a.confidence.rank() >= minimum.rank() {
            Some(a.hostname)
        } else {
            None
        },
        None => if minimum.rank() <= HostnameConfidence::High.rank() && names_host(event.kind) {
            event.explicit_hostname
        } else {
            None
        },
    }
}

/// The destination matcher of `rule` accepts `event`.
pub open spec fn destination_accepts(rule: PolicyRule, event: PolicyEvent) -> bool {
    match rule.destination {
        DestinationMatcher::Any => true,
        DestinationMatcher::Ip(expected) => event.destination_ip == Some(expected),
        DestinationMatcher::Cidr(cidr) => match event.destination_ip {
            Some(ip) => cidr_contains(cidr, ip),
            None => false,
        },
        DestinationMatcher::Hostname(expected) => match matchable_hostname(
            event,
            rule.minimum_hostname_confidence,
        ) {
            Some(h) => h@ == expected@,
            None => false,
        },
        DestinationMatcher::DomainSuffix(suffix) => match matchable_hostname(
            event,
            rule.minimum_hostname_confidence,
        ) {
            Some(h) => is_subdomain(h@, suffix@),
            None => false,
        },
    }
}

/// The HTTP matchers of `rule` accept `event`; a matcher other than `Any`
/// accepts HTTP requests only.
pub open spec fn request_metadata_accepts(rule: PolicyRule, event: PolicyEvent) -> bool {
    let scheme_ok = match rule.http_scheme {
        HttpSchemeMatcher::Any => true,
        HttpSchemeMatcher::Exact(expected) => match event.kind {
            EventKind::HttpRequest { scheme, .. } => scheme == expected,
            _ => false,
        },
    };
    let method_ok = match rule.http_method {
        HttpMethodMatcher::Any => true,
        HttpMethodMatcher::Exact(expected) => match event.kind {
            EventKind::HttpRequest { method, .. } => method == expected,
            _ => false,
        },
    };
    let path_ok = match rule.http_path {
        HttpPathMatcher::Any => true,
        HttpPathMatcher::Exact(expected) => match event.kind {
            EventKind::HttpRequest { path_query, .. } => path_query@ == expected@,
            _ => false,
        },
        HttpPathMatcher::Prefix(prefix) => match event.kind {
            EventKind::HttpRequest { path_query, .. } => prefix@.is_prefix_of(path_query@),
            _ => false,
        },
    };
    scheme_ok && method_ok && path_ok
}

/// Every matcher of `rule` accepts `event`.
pub open spec fn rule_accepts(rule: PolicyRule, event: PolicyEvent) -> bool {
    &&& protocol_accepts(rule.protocol, event.protocol)
    &&& destination_accepts(rule, event)
    &&& rule.port.accepts(event.destination_port)
    &&& request_metadata_accepts(rule, event)
}

/// Rule `i` is the first of `rules` that matches `event`.
pub open spec fn is_first_match(rules: Seq<PolicyRule>, event: PolicyEvent, i: int) -> bool {
    &&& 0 <= i < rules.len()
    &&& rule_accepts(rules[i], event)
    &&& forall|j: int| 0 <= j < i ==> !rule_accepts(#[trigger] rules[j], event)
}

/// The index of the first rule that matches `event`, if any does.
pub open spec fn first_match(rules: Seq<PolicyRule>, event: PolicyEvent) -> Option<int> {
    if exists|i: int| is_first_match(rules, event, i) {
        Some(choose|i: int| is_first_match(rules, event, i))
    } else {
        None
    }
}

/// At most one rule is the first to match.
pub proof fn lemma_first_match_unique(rules: Seq<PolicyRule>, event: PolicyEvent, i: int, k: int)
    requires
        is_first_match(rules, event, i),
        is_first_match(rules, event, k),
    ensures
        i == k,
{
    if i < k {
        assert(!rule_accepts(rules[i], event));
    } else if k < i {
        assert(!rule_accepts(rules[k], event));
    }
}

/// What a matching rule decides.
pub open spec fn rule_decision(rule: PolicyRule, d: PolicyDecision) -> bool {
    match rule.action {
        RuleAction::Allow => allowed_with(
            d,
            Some(rule.id),
            rule.timeout_override_millis,
            "matched allow rule"@,
        ),
        RuleAction::Deny(action) => denied_with(d, action, Some(rule.id), "matched deny rule"@),
    }
}

/// The first matching rule decides; without one, `d` denies with `action`
/// for `reason`.
pub open spec fn rule_or_deny(
    config: RuntimeConfig,
    event: PolicyEvent,
    d: PolicyDecision,
    action: DenialAction,
    reason: Seq<char>,
) -> bool {
    match first_match(config.rules@, event) {
        Some(i) => rule_decision(config.rules@[i], d),
        None => denied_with(d, action, None, reason),
    }
}

// ---------------------------------------------------------------------------
// The fixed checks.

/// A TCP connection to port 853 of an address that is not a broker resolver,
/// while external DNS is denied.
pub open spec fn direct_encrypted_dns_candidate(config: RuntimeConfig, event: PolicyEvent) -> bool {
    &&& event.protocol == Protocol::Tcp
    &&& event.destination_port == Some(853u16)
    &&& match event.destination_ip {
        Some(ip) => !config.broker_dns_addrs@.contains(ip) && config.direct_dns_policy
            == DirectDnsPolicy::DenyExternal,
        None => false,
    }
}

/// ICMP errors a connection needs: destination unreachable, time exceeded
/// and parameter problem for IPv4; types 1 to 4 for IPv6.
pub open spec fn essential_icmp(icmp_type: u8, source: IpAddress, destination: IpAddress) -> bool {
    if source is V4 && destination is V4 {
        icmp_type == 3 || icmp_type == 11 || icmp_type == 12
    } else if source is V6 && destination is V6 {
        1 <= icmp_type <= 4
    } else {
        false
    }
}

/// The decision for an ICMP message.
pub open spec fn icmp_decision(
    config: RuntimeConfig,
    icmp_type: u8,
    source: IpAddress,
    destination: IpAddress,
    d: PolicyDecision,
) -> bool {
    if icmp_type == 8 || icmp_type == 128 {
        if config.allow_ping {
            allowed_with(d, None, None, "ICMP echo enabled by policy"@)
        } else {
            denied_with(d, DenialAction::Drop, None, "ICMP echo is disabled by policy"@)
        }
    } else if essential_icmp(icmp_type, source, destination) {
        allowed_with(d, None, None, "essential ICMP error allowed by default"@)
    } else {
        denied_with(d, DenialAction::Drop, None, "unsupported ICMP type denied by default"@)
    }
}

/// The decision of the default policy.
pub open spec fn default_decision(policy: DefaultPolicy, d: PolicyDecision) -> bool {
    match policy {
        DefaultPolicy::Allow => allowed_with(d, None, None, "default allow policy"@),
        DefaultPolicy::Deny => denied_with(d, DenialAction::Drop, None, "default deny policy"@),
    }
}

/// A DNS query sent directly to an external resolver.
pub open spec fn direct_external_dns_query(event: PolicyEvent) -> bool {
    match event.kind {
        EventKind::DnsQuery { direct_external } => direct_external,
        _ => false,
    }
}

/// A UDP flow attempt of class `class`.
pub open spec fn udp_classified(event: PolicyEvent, class: UdpClassification) -> bool {
    match event.kind {
        EventKind::UdpFlowAttempt { classification } => classification == class,
        _ => false,
    }
}

/// A TLS hello whose server name contradicts the DNS attribution.
pub open spec fn tls_mismatch(event: PolicyEvent) -> bool {
    match event.kind {
        EventKind::TlsClientHello { mismatch, .. } => mismatch == HostnameMismatch::Mismatch,
        _ => false,
    }
}

/// A TLS hello without a server name.
pub open spec fn tls_without_sni(event: PolicyEvent) -> bool {
    match event.kind {
        EventKind::TlsClientHello { has_sni, .. } => !has_sni,
        _ => false,
    }
}

/// `d` is the policy's decision for `event` under `config`: the fixed checks
/// in their order, then the first matching rule, then the default policy.
pub open spec fn decides(config: RuntimeConfig, event: PolicyEvent, d: PolicyDecision) -> bool {
    if event.protocol == Protocol::Unsupported {
        fails_closed_with(d, "unsupported network event"@)
    } else if direct_external_dns_query(event) && config.direct_dns_policy
        == DirectDnsPolicy::DenyExternal {
        requires_broker_dns_with(d, "direct external DNS is denied; broker resolver is required"@)
    } else if direct_encrypted_dns_candidate(config, event) {
        rule_or_deny(
            config,
            event,
            d,
            DenialAction::Reset,
            "direct DNS-over-TLS candidate denied by default"@,
        )
    } else if udp_classified(event, UdpClassification::MulticastOrBroadcast) {
        denied_with(
            d,
            DenialAction::Drop,
            None,
            "multicast and broadcast UDP are denied by default"@,
        )
    } else if udp_classified(event, UdpClassification::QuicCandidate) && config.quic_policy
        == QuicPolicy::DenyByDefault {
        rule_or_deny(config, event, d, DenialAction::Drop, "QUIC candidate denied by default"@)
    } else if event.kind is IcmpMessage {
        match event.kind {
            EventKind::IcmpMessage { icmp_type, source, destination } => icmp_decision(
                config,
                icmp_type,
                source,
                destination,
                d,
            ),
            _ => false,
        }
    } else if tls_mismatch(event) {
        denied_with(d, DenialAction::Reset, None, "TLS SNI does not match DNS attribution"@)
    } else if tls_without_sni(event) {
        rule_or_deny(
            config,
            event,
            d,
            DenialAction::Reset,
            "TLS SNI is unavailable; explicit IP/port allow rule required"@,
        )
    } else {
        match first_match(config.rules@, event) {
            Some(i) => rule_decision(config.rules@[i], d),
            None => default_decision(config.default_policy, d),
        }
    }
}

// ---------------------------------------------------------------------------
// Evaluation.

fn deny(action: DenialAction, rule_id: Option<RuleId>, reason: &str) -> (d: PolicyDecision)
    ensures
        denied_with(d, action, rule_id, reason@),
{
    PolicyDecision::Deny(DenyDecision { action, rule_id, reason: reason.to_owned() })
}

fn fail_closed(reason: &str) -> (d: PolicyDecision)
    ensures
        fails_closed_with(d, reason@),
{
    PolicyDecision::FailClosed { reason: reason.to_owned() }
}

fn allow(rule_id: Option<RuleId>, timeout: Option<u64>, reason: &str) -> (d: PolicyDecision)
    ensures
        allowed_with(d, rule_id, timeout, reason@),
{
    PolicyDecision::Allow(
        AllowDecision { rule_id, timeout_override_millis: timeout, reason: Some(reason.to_owned()) },
    )
}

fn protocol_matches(matcher: ProtocolMatcher, protocol: Protocol) -> (m: bool)
    ensures
        m == protocol_accepts(matcher, protocol),
{
    match matcher {
        ProtocolMatcher::Any => true,
        ProtocolMatcher::Exact(expected) => expected == protocol,
    }
}

fn hostname_matches(event: &PolicyEvent, minimum: HostnameConfidence) -> (h: Option<&Hostname>)
    ensures
        match h {
            Some(name) => matchable_hostname(*event, minimum) == Some(*name),
            None => matchable_hostname(*event, minimum) is None,
        },
{
    match &event.hostname_attribution {
        Some(attribution) => {
            if attribution.confidence.at_least(minimum) {
                Some(&attribution.hostname)
            } else {
                None
            }
        },
        None => {
            if HostnameConfidence::High.at_least(minimum) {
                match &event.kind {
                    EventKind::DnsQuery { .. }
                    | EventKind::HttpRequest { .. }
                    | EventKind::HttpsConnect
                    | EventKind::TlsClientHello { .. }
                    | EventKind::SocksConnect => match &event.explicit_hostname {
                        Some(name) => Some(name),
                        None => None,
                    },
                    _ => None,
                }
            } else {
                None
            }
        },
    }
}

fn destination_matches(rule: &PolicyRule, event: &PolicyEvent) -> (m: bool)
    ensures
        m == destination_accepts(*rule, *event),
{
    match &rule.destination {
        DestinationMatcher::Any => true,
        DestinationMatcher::Ip(expected) => match event.destination_ip {
            Some(ip) => ip == *expected,
            None => false,
        },
        DestinationMatcher::Cidr(cidr) => match event.destination_ip {
            Some(ip) => cidr.contains(ip),
            None => false,
        },
        DestinationMatcher::Hostname(expected) => match hostname_matches(
            event,
            rule.minimum_hostname_confidence,
        ) {
            Some(name) => name.same_name(expected),
            None => false,
        },
        DestinationMatcher::DomainSuffix(suffix) => match hostname_matches(
            event,
            rule.minimum_hostname_confidence,
        ) {
            Some(name) => name.is_subdomain_of(suffix),
            None => false,
        },
    }
}

fn request_metadata_matches(rule: &PolicyRule, event: &PolicyEvent) -> (m: bool)
    ensures
        m == request_metadata_accepts(*rule, *event),
{
    let scheme_matches = match rule.http_scheme {
        HttpSchemeMatcher::Any => true,
        HttpSchemeMatcher::Exact(expected) => match &event.kind {
            EventKind::HttpRequest { scheme, .. } => *scheme == expected,
            _ => false,
        },
    };
    let method_matches = match rule.http_method {
        HttpMethodMatcher::Any => true,
        HttpMethodMatcher::Exact(expected) => match &event.kind {
            EventKind::HttpRequest { method, .. } => *method == expected,
            _ => false,
        },
    };
    let path_matches = match &rule.http_path {
        HttpPathMatcher::Any => true,
        HttpPathMatcher::Exact(expected) => match &event.kind {
            EventKind::HttpRequest { path_query, .. } => *path_query == *expected,
            _ => false,
        },
        HttpPathMatcher::Prefix(prefix) => match &event.kind {
            EventKind::HttpRequest { path_query, .. } => has_prefix(
                path_query.as_str(),
                prefix.as_str(),
            ),
            _ => false,
        },
    };
    scheme_matches && method_matches && path_matches
}

fn rule_matches(rule: &PolicyRule, event: &PolicyEvent) -> (m: bool)
    ensures
        m == rule_accepts(*rule, *event),
{
    protocol_matches(rule.protocol, event.protocol) && destination_matches(rule, event)
        && rule.port.matches(event.destination_port) && request_metadata_matches(rule, event)
}

fn is_essential_icmp(icmp_type: u8, source: IpAddress, destination: IpAddress) -> (e: bool)
    ensures
        e == essential_icmp(icmp_type, source, destination),
{
    match (source, destination) {
        (IpAddress::V4(_), IpAddress::V4(_)) => icmp_type == 3 || icmp_type == 11 || icmp_type == 12,
        (IpAddress::V6(_), IpAddress::V6(_)) => 1 <= icmp_type && icmp_type <= 4,
        _ => false,
    }
}

fn contains_address(addrs: &Vec<IpAddress>, ip: IpAddress) -> (c: bool)
    ensures
        c == addrs@.contains(ip),
{
    let mut i: usize = 0;
    while i < addrs.len()
        invariant
            i <= addrs@.len(),
            forall|j: int| 0 <= j < i ==> addrs@[j] != ip,
        decreases addrs@.len() - i,
    {
        if addrs[i] == ip {
            return true;
        }
        i = i + 1;
    }
    false
}

/// Policy engine over a typed runtime configuration.
#[derive(Clone, Debug)]
pub struct PolicyEngine {
    config: RuntimeConfig,
}

impl PolicyEngine {
    /// The configuration the engine decides by.
    pub closed spec fn configuration(&self) -> RuntimeConfig {
        self.config
    }

    pub fn new(config: RuntimeConfig) -> (engine: PolicyEngine)
        ensures
            engine.configuration() == config,
    {
        PolicyEngine { config }
    }

    pub fn config(&self) -> (config: &RuntimeConfig)
        ensures
            *config == self.configuration(),
    {
        &self.config
    }

    /// Decides `event`: unsupported events fail closed, the fixed checks
    /// come next, then the first matching rule, then the default policy.
    pub fn decide(&self, event: &PolicyEvent) -> (d: PolicyDecision)
        ensures
            decides(self.configuration(), *event, d),
    {
        if event.protocol == Protocol::Unsupported {
            return fail_closed("unsupported network event");
        }
        if let EventKind::DnsQuery { direct_external } = &event.kind {
            if *direct_external && self.config.direct_dns_policy == DirectDnsPolicy::DenyExternal {
                return PolicyDecision::RequireBrokerDns {
                    reason: "direct external DNS is denied; broker resolver is required".to_owned(),
                };
            }
        }
        if self.is_direct_encrypted_dns_candidate(event) {
            if let Some(decision) = self.match_configured_rule(event) {
                return decision;
            }
            return deny(DenialAction::Reset, None, "direct DNS-over-TLS candidate denied by default");
        }
        if let EventKind::UdpFlowAttempt { classification } = &event.kind {
            if *classification == UdpClassification::MulticastOrBroadcast {
                return deny(
                    DenialAction::Drop,
                    None,
                    "multicast and broadcast UDP are denied by default",
                );
            }
            if *classification == UdpClassification::QuicCandidate && self.config.quic_policy
                == QuicPolicy::DenyByDefault {
                if let Some(decision) = self.match_configured_rule(event) {
                    return decision;
                }
                return deny(DenialAction::Drop, None, "QUIC candidate denied by default");
            }
        }
        if let EventKind::IcmpMessage { icmp_type, source, destination } = &event.kind {
            let is_echo = *icmp_type == 8 || *icmp_type == 128;
            if is_echo {
                if self.config.allow_ping {
                    return allow(None, None, "ICMP echo enabled by policy");
                }
                return deny(DenialAction::Drop, None, "ICMP echo is disabled by policy");
            }
            if is_essential_icmp(*icmp_type, *source, *destination) {
                return allow(None, None, "essential ICMP error allowed by default");
            }
            return deny(DenialAction::Drop, None, "unsupported ICMP type denied by default");
        }
        if let EventKind::TlsClientHello { has_sni, mismatch } = &event.kind {
            if *mismatch == HostnameMismatch::Mismatch {
                return deny(DenialAction::Reset, None, "TLS SNI does not match DNS attribution");
            }
            if !*has_sni {
                if let Some(decision) = self.match_configured_rule(event) {
                    return decision;
                }
                return deny(
                    DenialAction::Reset,
                    None,
                    "TLS SNI is unavailable; explicit IP/port allow rule required",
                );
            }
        }
        if let Some(decision) = self.match_configured_rule(event) {
            return decision;
        }
        match self.config.default_policy {
            DefaultPolicy::Allow => allow(None, None, "default allow policy"),
            DefaultPolicy::Deny => deny(DenialAction::Drop, None, "default deny policy"),
        }
    }

    /// The decision of the first configured rule that matches `event`.
    fn match_configured_rule(&self, event: &PolicyEvent) -> (d: Option<PolicyDecision>)
        ensures
            match d {
                Some(decision) => first_match(self.configuration().rules@, *event) matches Some(
                    i,
                ) && rule_decision(self.configuration().rules@[i], decision),
                None => first_match(self.configuration().rules@, *event) is None,
            },
    {
        let rules = &self.config.rules;
        let mut i: usize = 0;
        while i < rules.len()
            invariant
                rules == &self.config.rules,
                i <= rules@.len(),
                forall|j: int| 0 <= j < i ==> !rule_accepts(#[trigger] rules@[j], *event),
            decreases rules@.len() - i,
        {
            let rule = &rules[i];
            if rule_matches(rule, event) {
                proof {
                    assert(is_first_match(rules@, *event, i as int));
                    let k = choose|k: int| is_first_match(rules@, *event, k);
                    lemma_first_match_unique(rules@, *event, i as int, k);
                }
                let decision = match rule.action {
                    RuleAction::Allow => allow(
                        Some(rule.id.duplicate()),
                        rule.timeout_override_millis,
                        "matched allow rule",
                    ),
                    RuleAction::Deny(action) => deny(
                        action,
                        Some(rule.id.duplicate()),
                        "matched deny rule",
                    ),
                };
                return Some(decision);
            }
            i = i + 1;
        }
        proof {
            assert forall|k: int| !is_first_match(rules@, *event, k) by {
                if is_first_match(rules@, *event, k) {
                    assert(!rule_accepts(rules@[k], *event));
                }
            }
        }
        None
    }

    /// A TCP connection to port 853 of a resolver other than the broker's,
    /// while external DNS is denied.
    fn is_direct_encrypted_dns_candidate(&self, event: &PolicyEvent) -> (c: bool)
        ensures
            c == direct_encrypted_dns_candidate(self.configuration(), *event),
    {
        if event.protocol != Protocol::Tcp {
            return false;
        }
        match event.destination_port {
            Some(port) => {
                if port != 853 {
                    return false;
                }
            },
            None => {
                return false;
            },
        }
        match event.destination_ip {
            Some(ip) => !contains_address(&self.config.broker_dns_addrs, ip)
                && self.config.direct_dns_policy == DirectDnsPolicy::DenyExternal,
            None => false,
        }
    }
}

// ---------------------------------------------------------------------------
// Laws of the policy.

/// Two decisions say the same: same kind, action, rule, timeout and reason.
pub open spec fn same_decision(a: PolicyDecision, b: PolicyDecision) -> bool {
    match a {
        PolicyDecision::Allow(x) => match b {
            PolicyDecision::Allow(y) => x.rule_id == y.rule_id && x.timeout_override_millis
                == y.timeout_override_millis && match x.reason {
                Some(r) => y.reason matches Some(q) && r@ == q@,
                None => y.reason is None,
            },
            _ => false,
        },
        PolicyDecision::Deny(x) => match b {
            PolicyDecision::Deny(y) => x.action == y.action && x.rule_id == y.rule_id && x.reason@
                == y.reason@,
            _ => false,
        },
        PolicyDecision::FailClosed { reason: r } => match b {
            PolicyDecision::FailClosed { reason: q } => r@ == q@,
            _ => false,
        },
        PolicyDecision::RequireBrokerDns { reason: r } => match b {
            PolicyDecision::RequireBrokerDns { reason: q } => r@ == q@,
            _ => false,
        },
    }
}

/// Evaluation is deterministic: one configuration and one event admit a
/// single decision.
pub proof fn lemma_decision_is_deterministic(
    config: RuntimeConfig,
    event: PolicyEvent,
    a: PolicyDecision,
    b: PolicyDecision,
)
    requires
        decides(config, event, a),
        decides(config, event, b),
    ensures
        same_decision(a, b),
{
}

/// Unsupported events fail closed, whatever the rules and the default
/// policy say.
pub proof fn lemma_unsupported_fails_closed(
    config: RuntimeConfig,
    event: PolicyEvent,
    d: PolicyDecision,
)
    requires
        event.protocol == Protocol::Unsupported,
        decides(config, event, d),
    ensures
        d is FailClosed,
{
}

/// While external DNS is denied, a direct external DNS query is sent to the
/// broker's resolver, whatever the rules and the default policy say.
pub proof fn lemma_external_dns_requires_broker(
    config: RuntimeConfig,
    event: PolicyEvent,
    d: PolicyDecision,
)
    requires
        event.protocol != Protocol::Unsupported,
        direct_external_dns_query(event),
        config.direct_dns_policy == DirectDnsPolicy::DenyExternal,
        decides(config, event, d),
    ensures
        d is RequireBrokerDns,
{
}

/// Multicast and broadcast UDP is dropped, whatever the rules and the
/// default policy say.
pub proof fn lemma_multicast_udp_denied(config: RuntimeConfig, event: PolicyEvent, d: PolicyDecision)
    requires
        event.protocol != Protocol::Unsupported,
        event.protocol != Protocol::Tcp,
        udp_classified(event, UdpClassification::MulticastOrBroadcast),
        decides(config, event, d),
    ensures
        d matches PolicyDecision::Deny(x) && x.action == DenialAction::Drop && x.rule_id is None,
{
}

/// A TLS hello whose server name contradicts the DNS attribution is reset,
/// whatever the rules and the default policy say.
pub proof fn lemma_tls_mismatch_denied(config: RuntimeConfig, event: PolicyEvent, d: PolicyDecision)
    requires
        event.protocol == Protocol::TlsClientHello,
        tls_mismatch(event),
        decides(config, event, d),
    ensures
        d matches PolicyDecision::Deny(x) && x.action == DenialAction::Reset && x.rule_id is None,
{
}

/// Essential ICMP errors are allowed, whatever the rules and the default
/// policy say.
pub proof fn lemma_essential_icmp_allowed(
    config: RuntimeConfig,
    event: PolicyEvent,
    d: PolicyDecision,
)
    requires
        event.protocol != Protocol::Unsupported,
        event.protocol != Protocol::Tcp,
        event.kind matches EventKind::IcmpMessage { icmp_type, source, destination }
            && essential_icmp(icmp_type, source, destination),
        decides(config, event, d),
    ensures
        d is Allow,
{
}

/// Appending rules never changes which rule matches first, once one does.
pub proof fn lemma_first_match_survives_append(
    rules: Seq<PolicyRule>,
    extra: Seq<PolicyRule>,
    event: PolicyEvent,
)
    requires
        first_match(rules, event) is Some,
    ensures
        first_match(rules + extra, event) == first_match(rules, event),
{
    let i = choose|i: int| is_first_match(rules, event, i);
    let all = rules + extra;
    assert(all[i] == rules[i]);
    assert forall|j: int| 0 <= j < i implies !rule_accepts(#[trigger] all[j], event) by {
        assert(all[j] == rules[j]);
    }
    assert(is_first_match(all, event, i));
    let k = choose|k: int| is_first_match(all, event, k);
    lemma_first_match_unique(all, event, i, k);
}

/// Rules are tried in order: when a rule decides an event, rules appended
/// after it do not change the decision.
pub proof fn lemma_appended_rules_keep_decision(
    config: RuntimeConfig,
    extended: RuntimeConfig,
    extra: Seq<PolicyRule>,
    event: PolicyEvent,
    a: PolicyDecision,
    b: PolicyDecision,
)
    requires
        extended == (RuntimeConfig { rules: extended.rules, ..config }),
        extended.rules@ == config.rules@ + extra,
        first_match(config.rules@, event) is Some,
        decides(config, event, a),
        decides(extended, event, b),
    ensures
        same_decision(a, b),
{
    lemma_first_match_survives_append(config.rules@, extra, event);
    let i = first_match(config.rules@, event)->Some_0;
    assert(extended.rules@[i] == config.rules@[i]);
}

/// While QUIC is denied by default, a QUIC-candidate UDP flow attempt that
/// a configured rule matches is decided by the first such rule: an allow
/// rule allows it under that rule's id and timeout, a deny rule denies it
/// with the rule's action. The default drop applies only without a match.
pub proof fn lemma_quic_candidate_follows_first_matching_rule(
    config: RuntimeConfig,
    event: PolicyEvent,
    d: PolicyDecision,
    i: int,
)
    requires
        event.kind == (EventKind::UdpFlowAttempt { classification: UdpClassification::QuicCandidate }),
        event.protocol != Protocol::Unsupported,
        event.protocol != Protocol::Tcp,
        config.quic_policy == QuicPolicy::DenyByDefault,
        is_first_match(config.rules@, event, i),
        decides(config, event, d),
    ensures
        config.rules@[i].action == RuleAction::Allow ==> (d matches PolicyDecision::Allow(a)
            && a.rule_id == Some(config.rules@[i].id) && a.timeout_override_millis
            == config.rules@[i].timeout_override_millis),
        (config.rules@[i].action matches RuleAction::Deny(action)) ==> (d matches PolicyDecision::Deny(
            x,
        ) && x.action == config.rules@[i].action->Deny_0 && x.rule_id == Some(config.rules@[i].id)),
{
    let k = choose|k: int| is_first_match(config.rules@, event, k);
    lemma_first_match_unique(config.rules@, event, i, k);
}

/// While QUIC is denied by default, a QUIC-candidate UDP flow attempt that
/// no configured rule matches is dropped without naming a rule.
pub proof fn lemma_unmatched_quic_candidate_dropped(
    config: RuntimeConfig,
    event: PolicyEvent,
    d: PolicyDecision,
)
    requires
        event.kind == (EventKind::UdpFlowAttempt { classification: UdpClassification::QuicCandidate }),
        event.protocol != Protocol::Unsupported,
        event.protocol != Protocol::Tcp,
        config.quic_policy == QuicPolicy::DenyByDefault,
        forall|i: int| 0 <= i < config.rules@.len() ==> !rule_accepts(#[trigger] config.rules@[i], event),
        decides(config, event, d),
    ensures
        d matches PolicyDecision::Deny(x) && x.action == DenialAction::Drop && x.rule_id is None,
{
    assert(!exists|i: int| is_first_match(config.rules@, event, i));
}

/// Without a matching rule, an event that no fixed check decides gets the
/// default policy's decision.
pub proof fn lemma_default_applies_without_rule(
    config: RuntimeConfig,
    event: PolicyEvent,
    d: PolicyDecision,
)
    requires
        event.kind == EventKind::TcpConnectAttempt,
        event.protocol != Protocol::Unsupported,
        !direct_encrypted_dns_candidate(config, event),
        first_match(config.rules@, event) is None,
        decides(config, event, d),
    ensures
        default_decision(config.default_policy, d),
{
}

} // verus!
