//! Tracked transport flows with their idle timeouts and resource limit, and
//! the DNS cache that attributes destination addresses to hostnames.

use crate::bridge::{keep_where, lemma_keep_where_len, lemma_keep_where_no_duplicates};
use crate::model::{IpAddress, SocketAddress};
use crate::net::{ByteCounts, FlowKey, FlowLimitError};
use crate::policy::{
    DestinationHost, Hostname, HostnameAttribution, HostnameAttributionSource, HostnameConfidence,
    PolicyDecision, UdpClassification,
};
use vstd::prelude::*;

verus! {

/// Idle timeouts of UDP flows by class, in milliseconds.
#[derive(Clone, Copy, Debug, PartialEq, Eq, Structural)]
pub struct UdpTimeouts {
    pub dns: u64,
    pub quic: u64,
    pub ntp_like: u64,
    pub generic: u64,
}

/// The idle timeout of a UDP flow of `classification`; multicast and
/// broadcast flows use the generic timeout.
pub fn udp_timeout(classification: UdpClassification, timeouts: &UdpTimeouts) -> (timeout: u64)
    ensures
        timeout == (match classification {
            UdpClassification::Dns => timeouts.dns,
            UdpClassification::QuicCandidate => timeouts.quic,
            UdpClassification::NtpLike => timeouts.ntp_like,
            UdpClassification::Generic => timeouts.generic,
            UdpClassification::MulticastOrBroadcast => timeouts.generic,
        }),
{
    match classification {
        UdpClassification::Dns => timeouts.dns,
        UdpClassification::QuicCandidate => timeouts.quic,
        UdpClassification::NtpLike => timeouts.ntp_like,
        UdpClassification::Generic | UdpClassification::MulticastOrBroadcast => timeouts.generic,
    }
}

/// Idle timeout of a flow: an allow decision's override, else `fallback`.
pub fn flow_idle_timeout(decision: &PolicyDecision, fallback: u64) -> (timeout: u64)
    ensures
        timeout == (match *decision {
            PolicyDecision::Allow(allow) => match allow.timeout_override_millis {
                Some(t) => t,
                None => fallback,
            },
            _ => fallback,
        }),
{
    match decision {
        PolicyDecision::Allow(allow) => match allow.timeout_override_millis {
            Some(t) => t,
            None => fallback,
        },
        _ => fallback,
    }
}

/// One tracked flow; times are in milliseconds.
#[derive(Clone, Debug, PartialEq, Eq)]
pub struct FlowState {
    pub key: FlowKey,
    pub hostname: Option<HostnameAttribution>,
    pub created_at_millis: u64,
    pub last_seen_millis: u64,
    pub idle_timeout_millis: u64,
    pub byte_counts: ByteCounts,
    pub decision: PolicyDecision,
}

/// Whether a flow last seen at `last_seen` has been idle for `idle_after`
/// at `now` (elapsed time saturates at zero).
pub open spec fn idle_for(last_seen: u64, now: u64, idle_after: u64) -> bool {
    (if now >= last_seen {
        now - last_seen
    } else {
        0
    }) >= idle_after
}

/// Which flows of `states` survive expiry at `now`: with `idle_after`, those
/// idle for less; without, those idle for less than their own timeout.
pub open spec fn survivors(states: Seq<FlowState>, now: u64, idle_after: Option<u64>) -> Seq<bool> {
    Seq::new(
        states.len(),
        |i: int|
            !idle_for(
                states[i].last_seen_millis,
                now,
                match idle_after {
                    Some(t) => t,
                    None => states[i].idle_timeout_millis,
                },
            ),
    )
}

/// The negation of each mark in `keep`.
pub open spec fn negated(keep: Seq<bool>) -> Seq<bool> {
    Seq::new(keep.len(), |i: int| !keep[i])
}

/// Tracked flows, each key at most once.
pub struct FlowTable {
    flows: Vec<FlowState>,
}

impl FlowTable {
    pub closed spec fn states(&self) -> Seq<FlowState> {
        self.flows@
    }

    pub open spec fn keys(&self) -> Seq<FlowKey> {
        Seq::new(self.states().len(), |i: int| self.states()[i].key)
    }

    pub open spec fn wf(&self) -> bool {
        self.keys().no_duplicates()
    }

    pub fn new() -> (table: FlowTable)
        ensures
            table.wf(),
            table.states() == Seq::<FlowState>::empty(),
    {
        let table = FlowTable { flows: Vec::new() };
        assert(table.keys() =~= Seq::<FlowKey>::empty());
        table
    }

    pub fn len(&self) -> (len: usize)
        ensures
            len == self.states().len(),
    {
        self.flows.len()
    }

    pub fn is_empty(&self) -> (empty: bool)
        ensures
            empty == (self.states().len() == 0),
    {
        self.flows.len() == 0
    }

    fn position(&self, key: &FlowKey) -> (found: Option<usize>)
        ensures
            found matches Some(i) ==> i < self.states().len() && self.states()[i as int].key == *key,
            found is None ==> !self.keys().contains(*key),
    {
        let mut i: usize = 0;
        while i < self.flows.len()
            invariant
                i <= self.flows@.len(),
                forall|j: int| 0 <= j < i ==> self.flows@[j].key != *key,
            decreases self.flows@.len() - i,
        {
            if self.flows[i].key == *key {
                return Some(i);
            }
            i = i + 1;
        }
        assert forall|j: int| 0 <= j < self.keys().len() implies self.keys()[j] != *key by {
            assert(self.keys()[j] == self.flows@[j].key);
        }
        None
    }

    /// The flow with `key`, if tracked.
    pub fn get(&self, key: &FlowKey) -> (state: Option<&FlowState>)
        requires
            self.wf(),
        ensures
            state matches Some(s) ==> self.states().contains(*s) && s.key == *key,
            state is None <==> !self.keys().contains(*key),
    {
        match self.position(key) {
            Some(i) => {
                assert(self.keys()[i as int] == *key);
                Some(&self.flows[i])
            },
            None => None,
        }
    }

    /// Tracks `state`, replacing the flow with the same key, if any.
    pub fn upsert(&mut self, state: FlowState)
        requires
            old(self).wf(),
        ensures
            final(self).wf(),
            old(self).keys().contains(state.key) ==> final(self).states() == old(self).states().update(
                old(self).keys().index_of(state.key),
                state,
            ),
            !old(self).keys().contains(state.key) ==> final(self).states() == old(self).states().push(
                state,
            ),
    {
        let ghost k = state.key;
        match self.position(&state.key) {
            Some(i) => {
                proof {
                    assert(old(self).keys()[i as int] == k);
                    assert(old(self).keys().index_of(k) == i) by {
                        let j = old(self).keys().index_of(k);
                        assert(old(self).keys()[j] == k);
                    }
                }
                self.flows.set(i, state);
                assert(self.keys() =~= old(self).keys());
            },
            None => {
                self.flows.push(state);
                proof {
                    assert(self.keys() =~= old(self).keys().push(k));
                }
            },
        }
    }

    /// Tracks `state` under a limit of `max_flows` flows; replacing a
    /// tracked key is allowed even at the limit.
    pub fn try_upsert(&mut self, state: FlowState, max_flows: usize) -> (result: Result<(), FlowLimitError>)
        requires
            old(self).wf(),
        ensures
            final(self).wf(),
            max_flows == 0 ==> result == Err::<(), FlowLimitError>(FlowLimitError::ZeroLimit),
            max_flows > 0 && old(self).states().len() >= max_flows && !old(self).keys().contains(state.key)
                ==> result == Err::<(), FlowLimitError>(FlowLimitError::LimitReached { max_flows }),
            result is Err ==> final(self).states() == old(self).states(),
            result is Ok <==> max_flows > 0 && (old(self).states().len() < max_flows || old(
                self,
            ).keys().contains(state.key)),
            result is Ok && old(self).keys().contains(state.key) ==> final(self).states() == old(
                self,
            ).states().update(old(self).keys().index_of(state.key), state),
            result is Ok && !old(self).keys().contains(state.key) ==> final(self).states() == old(
                self,
            ).states().push(state),
    {
        if max_flows == 0 {
            return Err(FlowLimitError::ZeroLimit);
        }
        let present = self.position(&state.key);
        proof {
            if let Some(i) = present {
                assert(self.keys()[i as int] == state.key);
            }
        }
        if self.flows.len() >= max_flows && present.is_none() {
            return Err(FlowLimitError::LimitReached { max_flows });
        }
        self.upsert(state);
        Ok(())
    }

    fn expire_where(&mut self, now: u64, idle_after: Option<u64>) -> (expired: Vec<FlowState>)
        requires
            old(self).wf(),
        ensures
            final(self).wf(),
            final(self).states() == keep_where(
                old(self).states(),
                survivors(old(self).states(), now, idle_after),
            ),
            expired@ == keep_where(
                old(self).states(),
                negated(survivors(old(self).states(), now, idle_after)),
            ),
    {
        let ghost original = self.flows@;
        let ghost keep = survivors(original, now, idle_after);
        let ghost drop = negated(keep);
        let mut expired: Vec<FlowState> = Vec::new();
        let mut i: usize = 0;
        let ghost mut consumed: int = 0;
        proof {
            assert(original.subrange(0, 0) =~= Seq::<FlowState>::empty());
            assert(keep_where(original.subrange(0, 0), keep) =~= Seq::<FlowState>::empty());
            assert(keep_where(original.subrange(0, 0), drop) =~= Seq::<FlowState>::empty());
            assert(self.flows@ =~= keep_where(original.subrange(0, 0), keep) + original.subrange(
                0,
                original.len() as int,
            ));
        }
        while i < self.flows.len()
            invariant
                0 <= consumed <= original.len(),
                i == keep_where(original.subrange(0, consumed), keep).len(),
                self.flows@ == keep_where(original.subrange(0, consumed), keep) + original.subrange(
                    consumed,
                    original.len() as int,
                ),
                expired@ == keep_where(original.subrange(0, consumed), drop),
                keep == survivors(original, now, idle_after),
                drop == negated(keep),
                original == old(self).flows@,
            decreases original.len() - consumed,
        {
            let ghost prefix = original.subrange(0, consumed);
            let ghost next = original.subrange(0, consumed + 1);
            proof {
                assert(next.drop_last() =~= prefix);
                assert(self.flows@[i as int] == original[consumed]);
            }
            let last = self.flows[i].last_seen_millis;
            let elapsed = if now >= last {
                now - last
            } else {
                0
            };
            let limit = match idle_after {
                Some(t) => t,
                None => self.flows[i].idle_timeout_millis,
            };
            if elapsed >= limit {
                let state = self.flows.remove(i);
                expired.push(state);
                proof {
                    assert(!keep[consumed]);
                    assert(drop[consumed]);
                    consumed = consumed + 1;
                    assert(self.flows@ =~= keep_where(original.subrange(0, consumed), keep)
                        + original.subrange(consumed, original.len() as int));
                }
            } else {
                i = i + 1;
                proof {
                    assert(keep[consumed]);
                    assert(!drop[consumed]);
                    consumed = consumed + 1;
                    assert(self.flows@ =~= keep_where(original.subrange(0, consumed), keep)
                        + original.subrange(consumed, original.len() as int));
                }
            }
        }
        proof {
            assert(consumed == original.len()) by {
                lemma_keep_where_len(original.subrange(0, consumed), keep);
            }
            assert(original.subrange(0, consumed) =~= original);
            assert(self.flows@ =~= keep_where(original, keep));
            assert(flow_keys(original) =~= old(self).keys());
            lemma_keys_of_kept(original, keep);
            assert(self.keys() =~= flow_keys(keep_where(original, keep)));
        }
        expired
    }

    /// Stops tracking, and returns, every flow idle for at least `idle_after`
    /// milliseconds at `now`; the rest keep their order.
    pub fn expire_idle(&mut self, now: u64, idle_after: u64) -> (expired: Vec<FlowState>)
        requires
            old(self).wf(),
        ensures
            final(self).wf(),
            final(self).states() == keep_where(
                old(self).states(),
                survivors(old(self).states(), now, Some(idle_after)),
            ),
            expired@ == keep_where(
                old(self).states(),
                negated(survivors(old(self).states(), now, Some(idle_after))),
            ),
    {
        self.expire_where(now, Some(idle_after))
    }

    /// Stops tracking, and returns, every flow idle for at least its own
    /// idle timeout at `now`; the rest keep their order.
    pub fn expire_by_flow_timeout(&mut self, now: u64) -> (expired: Vec<FlowState>)
        requires
            old(self).wf(),
        ensures
            final(self).wf(),
            final(self).states() == keep_where(old(self).states(), survivors(old(self).states(), now, None)),
            expired@ == keep_where(
                old(self).states(),
                negated(survivors(old(self).states(), now, None)),
            ),
    {
        self.expire_where(now, None)
    }
}

/// Keys of flows.
pub open spec fn flow_keys(states: Seq<FlowState>) -> Seq<FlowKey> {
    Seq::new(states.len(), |i: int| states[i].key)
}

proof fn lemma_keys_commute(states: Seq<FlowState>, keep: Seq<bool>)
    ensures
        flow_keys(keep_where(states, keep)) == keep_where(flow_keys(states), keep),
    decreases states.len(),
{
    if states.len() == 0 {
        assert(flow_keys(keep_where(states, keep)) =~= keep_where(flow_keys(states), keep));
    } else {
        lemma_keys_commute(states.drop_last(), keep);
        assert(flow_keys(states).drop_last() =~= flow_keys(states.drop_last()));
        let rest = keep_where(states.drop_last(), keep);
        if keep[states.len() - 1] {
            assert(flow_keys(rest.push(states.last())) =~= flow_keys(rest).push(states.last().key));
        }
        assert(flow_keys(keep_where(states, keep)) =~= keep_where(flow_keys(states), keep));
    }
}

proof fn lemma_keys_of_kept(states: Seq<FlowState>, keep: Seq<bool>)
    requires
        flow_keys(states).no_duplicates(),
    ensures
        flow_keys(keep_where(states, keep)).no_duplicates(),
{
    lemma_keys_commute(states, keep);
    lemma_keep_where_no_duplicates(flow_keys(states), keep);
}

// ---------------------------------------------------------------------------
// DNS attribution.

/// In a sequence without duplicates, `index_of` finds the only occurrence.
proof fn lemma_unique_index<A>(s: Seq<A>, x: A, i: int)
    requires
        s.no_duplicates(),
        0 <= i < s.len(),
        s[i] == x,
    ensures
        s.contains(x),
        s.index_of(x) == i,
{
    assert(s.contains(x));
    let j = s.index_of(x);
    assert(s[j] == x);
}

/// Index of the last record of `records` for `ip`, if any.
pub open spec fn last_record_for(records: Seq<DnsAddressRecord>, ip: IpAddress) -> Option<int>
    decreases records.len(),
{
    if records.len() == 0 {
        None
    } else if records.last().addr == ip {
        Some(records.len() - 1)
    } else {
        last_record_for(records.drop_last(), ip)
    }
}

proof fn lemma_last_record_in_range(records: Seq<DnsAddressRecord>, ip: IpAddress)
    ensures
        last_record_for(records, ip) matches Some(i) ==> 0 <= i < records.len() && records[i].addr
            == ip,
    decreases records.len(),
{
    if records.len() > 0 && records.last().addr != ip {
        lemma_last_record_in_range(records.drop_last(), ip);
    }
}

struct DnsAttributionEntry {
    ip: IpAddress,
    hostname: Hostname,
    expires_at_millis: u64,
}

/// An address record of a DNS answer: the name asked for, one address it
/// resolved to, and how long the answer may be used.
#[derive(Clone, Debug, PartialEq, Eq)]
pub struct DnsAddressRecord {
    pub hostname: Hostname,
    pub addr: IpAddress,
    pub ttl_millis: u64,
}

/// Hostnames learned from the broker's DNS answers, by address, each with
/// the time its answer expires; an address has at most one hostname.
pub struct DnsAttributionCache {
    entries: Vec<DnsAttributionEntry>,
}

impl DnsAttributionCache {
    pub closed spec fn ips(&self) -> Seq<IpAddress> {
        Seq::new(self.entries@.len(), |i: int| self.entries@[i].ip)
    }

    /// Hostname and expiry time recorded for `ip`, if any.
    pub closed spec fn entry_for(&self, ip: IpAddress) -> Option<(Hostname, u64)> {
        if self.ips().contains(ip) {
            let e = self.entries@[self.ips().index_of(ip)];
            Some((e.hostname, e.expires_at_millis))
        } else {
            None
        }
    }

    pub closed spec fn wf(&self) -> bool {
        self.ips().no_duplicates()
    }

    pub fn new() -> (cache: DnsAttributionCache)
        ensures
            cache.wf(),
            forall|ip: IpAddress| cache.entry_for(ip) is None,
    {
        let cache = DnsAttributionCache { entries: Vec::new() };
        assert(cache.ips() =~= Seq::<IpAddress>::empty());
        cache
    }

    fn observe_one(&mut self, hostname: &Hostname, ip: IpAddress, expires_at_millis: u64)
        requires
            old(self).wf(),
        ensures
            final(self).wf(),
            final(self).entry_for(ip) == Some((*hostname, expires_at_millis)),
            forall|q: IpAddress| q != ip ==> final(self).entry_for(q) == old(self).entry_for(q),
    {
        let ghost before = self.ips();
        let mut i: usize = 0;
        while i < self.entries.len()
            invariant
                i <= self.entries@.len(),
                self.entries@ == old(self).entries@,
                forall|j: int| 0 <= j < i ==> self.entries@[j].ip != ip,
            ensures
                i <= self.entries@.len(),
                self.entries@ == old(self).entries@,
                forall|j: int| 0 <= j < i ==> self.entries@[j].ip != ip,
                i < self.entries@.len() ==> self.entries@[i as int].ip == ip,
            decreases self.entries@.len() - i,
        {
            if self.entries[i].ip == ip {
                break;
            }
            i = i + 1;
        }
        let entry = DnsAttributionEntry { ip, hostname: hostname.duplicate(), expires_at_millis };
        if i < self.entries.len() {
            proof {
                assert(before[i as int] == ip);
                lemma_unique_index(before, ip, i as int);
            }
            self.entries.set(i, entry);
            proof {
                assert(self.ips() =~= before);
                lemma_unique_index(self.ips(), ip, i as int);
                assert forall|q: IpAddress| q != ip implies self.entry_for(q) == old(self).entry_for(q) by {
                    if before.contains(q) {
                        let k = before.index_of(q);
                        assert(before[k] == q);
                        assert(k != i);
                        lemma_unique_index(self.ips(), q, k);
                    }
                }
            }
        } else {
            proof {
                assert(!before.contains(ip)) by {
                    if before.contains(ip) {
                        let k = before.index_of(ip);
                        assert(self.entries@[k].ip == before[k]);
                    }
                }
            }
            self.entries.push(entry);
            proof {
                let n = before.len();
                assert(self.ips() =~= before.push(ip));
                lemma_unique_index(self.ips(), ip, n as int);
                assert forall|q: IpAddress| q != ip implies self.entry_for(q) == old(self).entry_for(q) by {
                    if before.contains(q) {
                        let k = before.index_of(q);
                        assert(before[k] == q);
                        lemma_unique_index(self.ips(), q, k);
                    } else {
                        assert(!self.ips().contains(q)) by {
                            if self.ips().contains(q) {
                                let k = self.ips().index_of(q);
                                assert(self.ips()[k] == q);
                                if k < n {
                                    assert(before[k] == q);
                                }
                            }
                        }
                    }
                }
            }
        }
    }

    /// Records that `hostname` resolved to each of `addrs` at `now`, for
    /// `ttl` milliseconds; an address already known gets the new hostname.
    pub fn observe(&mut self, hostname: &Hostname, addrs: &Vec<IpAddress>, now: u64, ttl: u64)
        requires
            old(self).wf(),
            now + ttl <= u64::MAX,
        ensures
            final(self).wf(),
            forall|ip: IpAddress|
                addrs@.contains(ip) ==> final(self).entry_for(ip) == Some((*hostname, (now + ttl) as u64)),
            forall|ip: IpAddress|
                !addrs@.contains(ip) ==> final(self).entry_for(ip) == old(self).entry_for(ip),
    {
        let expires = now + ttl;
        let mut i: usize = 0;
        while i < addrs.len()
            invariant
                self.wf(),
                i <= addrs@.len(),
                expires == now + ttl,
                forall|ip: IpAddress|
                    addrs@.subrange(0, i as int).contains(ip) ==> self.entry_for(ip) == Some(
                        (*hostname, expires),
                    ),
                forall|ip: IpAddress|
                    !addrs@.subrange(0, i as int).contains(ip) ==> self.entry_for(ip) == old(
                        self,
                    ).entry_for(ip),
            decreases addrs@.len() - i,
        {
            let ghost prefix = addrs@.subrange(0, i as int);
            let ghost next = addrs@.subrange(0, i + 1);
            self.observe_one(hostname, addrs[i], expires);
            proof {
                assert(next =~= prefix.push(addrs@[i as int]));
                assert forall|ip: IpAddress| next.contains(ip) implies self.entry_for(ip) == Some(
                    (*hostname, expires),
                ) by {
                    if ip != addrs@[i as int] {
                        let k = next.index_of(ip);
                        assert(prefix[k] == ip);
                    }
                }
                assert forall|ip: IpAddress| !next.contains(ip) implies self.entry_for(ip) == old(
                    self,
                ).entry_for(ip) by {
                    assert(next[i as int] == addrs@[i as int]);
                    if prefix.contains(ip) {
                        let k = prefix.index_of(ip);
                        assert(next[k] == ip);
                    }
                }
            }
            i = i + 1;
        }
        assert(addrs@.subrange(0, addrs@.len() as int) =~= addrs@);
    }

    /// Records each address record of a DNS answer received at `now`, in
    /// order, so that a later record for an address replaces an earlier one.
    pub fn observe_address_records(&mut self, records: &Vec<DnsAddressRecord>, now: u64)
        requires
            old(self).wf(),
            forall|i: int| 0 <= i < records@.len() ==> now + #[trigger] records@[i].ttl_millis <= u64::MAX,
        ensures
            final(self).wf(),
            forall|ip: IpAddress|
                match #[trigger] last_record_for(records@, ip) {
                    Some(i) => final(self).entry_for(ip) == Some(
                        (records@[i].hostname, (now + records@[i].ttl_millis) as u64),
                    ),
                    None => final(self).entry_for(ip) == old(self).entry_for(ip),
                },
    {
        let mut i: usize = 0;
        while i < records.len()
            invariant
                self.wf(),
                i <= records@.len(),
                forall|k: int| 0 <= k < records@.len() ==> now + #[trigger] records@[k].ttl_millis <= u64::MAX,
                forall|ip: IpAddress|
                    match #[trigger] last_record_for(records@.subrange(0, i as int), ip) {
                        Some(k) => self.entry_for(ip) == Some(
                            (records@[k].hostname, (now + records@[k].ttl_millis) as u64),
                        ),
                        None => self.entry_for(ip) == old(self).entry_for(ip),
                    },
            decreases records@.len() - i,
        {
            let record = &records[i];
            let expires = now + record.ttl_millis;
            self.observe_one(&record.hostname, record.addr, expires);
            proof {
                let prefix = records@.subrange(0, i as int);
                let next = records@.subrange(0, i + 1);
                assert(next.drop_last() =~= prefix);
                assert(next.last() == records@[i as int]);
                assert forall|ip: IpAddress|
                    match #[trigger] last_record_for(next, ip) {
                        Some(k) => self.entry_for(ip) == Some(
                            (records@[k].hostname, (now + records@[k].ttl_millis) as u64),
                        ),
                        None => self.entry_for(ip) == old(self).entry_for(ip),
                    } by {
                    assert(last_record_for(prefix, ip) == last_record_for(next.drop_last(), ip));
                    lemma_last_record_in_range(prefix, ip);
                }
            }
            i = i + 1;
        }
        assert(records@.subrange(0, records@.len() as int) =~= records@);
    }

    /// The hostname `ip` is attributed to at `now`, with medium confidence
    /// and the broker's DNS as its source: the one recorded for it, while
    /// its answer has not expired.
    pub fn attribution_for(&self, ip: IpAddress, now: u64) -> (attribution: Option<
        HostnameAttribution,
    >)
        requires
            self.wf(),
        ensures
            match self.entry_for(ip) {
                Some((name, expires)) => if expires > now {
                    attribution == Some(
                        HostnameAttribution {
                            hostname: name,
                            source: HostnameAttributionSource::BrokerDns,
                            confidence: HostnameConfidence::Medium,
                        },
                    )
                } else {
                    attribution is None
                },
                None => attribution is None,
            },
    {
        let mut i: usize = 0;
        while i < self.entries.len()
            invariant
                self.wf(),
                i <= self.entries@.len(),
                forall|j: int| 0 <= j < i ==> self.entries@[j].ip != ip,
            decreases self.entries@.len() - i,
        {
            if self.entries[i].ip == ip {
                proof {
                    assert(self.ips()[i as int] == ip);
                    lemma_unique_index(self.ips(), ip, i as int);
                }
                if self.entries[i].expires_at_millis <= now {
                    return None;
                }
                return Some(
                    HostnameAttribution::new(
                        self.entries[i].hostname.duplicate(),
                        HostnameAttributionSource::BrokerDns,
                        HostnameConfidence::Medium,
                    ),
                );
            }
            i = i + 1;
        }
        proof {
            assert(!self.ips().contains(ip)) by {
                if self.ips().contains(ip) {
                    let k = self.ips().index_of(ip);
                    assert(self.ips()[k] == ip);
                }
            }
        }
        None
    }
}

/// A high-confidence attribution for the hostname an explicit proxy request
/// named; none for a request that named an address.
pub fn attribution_from_explicit_destination(host: &DestinationHost) -> (attribution: Option<
    HostnameAttribution,
>)
    ensures
        match *host {
            DestinationHost::Hostname(name) => attribution == Some(
                HostnameAttribution {
                    hostname: name,
                    source: HostnameAttributionSource::ExplicitProxyDestination,
                    confidence: HostnameConfidence::High,
                },
            ),
            DestinationHost::Ip(_) => attribution is None,
        },
{
    match host {
        DestinationHost::Hostname(name) => Some(
            HostnameAttribution::new(
                name.duplicate(),
                HostnameAttributionSource::ExplicitProxyDestination,
                HostnameConfidence::High,
            ),
        ),
        DestinationHost::Ip(_) => None,
    }
}

/// Whether a DNS query to `destination` goes to one of the broker's
/// resolvers: port 53 of an address in `broker_addrs`.
pub fn is_broker_dns_destination(destination: SocketAddress, broker_addrs: &Vec<IpAddress>) -> (broker: bool)
    ensures
        broker == (destination.port == 53 && broker_addrs@.contains(destination.ip)),
{
    if destination.port != 53 {
        return false;
    }
    let mut i: usize = 0;
    while i < broker_addrs.len()
        invariant
            destination.port == 53,
            i <= broker_addrs@.len(),
            forall|j: int| 0 <= j < i ==> broker_addrs@[j] != destination.ip,
        decreases broker_addrs@.len() - i,
    {
        if broker_addrs[i] == destination.ip {
            assert(broker_addrs@[i as int] == destination.ip);
            return true;
        }
        i = i + 1;
    }
    false
}

} // verus!
