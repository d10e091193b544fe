//! Runtime-owned bridge tables: retained host egress handles for sandbox
//! UDP pseudo-flows and stack TCP flows, with global and per-sandbox limits,
//! idle expiry, and buffering of sandbox bytes the host stream has not yet
//! accepted.

use crate::model::{FrontendKind, IpAddress, SandboxId, SocketAddress};
use crate::net::StackTcpData;
use crate::packet::{copy_range, Ipv4Endpoint, TcpConnectAttempt, UdpFlowAttempt};
use std::collections::VecDeque;
use vstd::prelude::*;

verus! {

pub const DEFAULT_UDP_BRIDGE_IDLE_TIMEOUT_MILLIS: u64 = 60_000;
pub const DEFAULT_MAX_UDP_BRIDGES: usize = 4096;
pub const DEFAULT_MAX_UDP_BRIDGES_PER_SANDBOX: usize = 1024;
pub const DEFAULT_MAX_TCP_BRIDGES: usize = 4096;
pub const DEFAULT_MAX_TCP_BRIDGES_PER_SANDBOX: usize = 1024;
pub const DEFAULT_MAX_TCP_BRIDGES_PER_TICK: usize = 64;
pub const DEFAULT_MAX_UDP_BRIDGES_PER_TICK: usize = 64;
pub const DEFAULT_MAX_TCP_BRIDGES_PER_SANDBOX_PER_TICK: usize = 16;
pub const DEFAULT_MAX_UDP_BRIDGES_PER_SANDBOX_PER_TICK: usize = 16;
pub const DEFAULT_MAX_PENDING_SANDBOX_BYTES: usize = 1048576;

/// Abstract value of a flow key: sandbox, frontend, source, destination.
pub type FlowKeyView = (Seq<char>, FrontendKind, SocketAddress, SocketAddress);

/// Normalized key of a bridged flow (a UDP pseudo-flow or a stack TCP flow).
#[derive(Clone, Debug, PartialEq, Eq, Hash)]
pub struct BridgeFlowKey {
    pub sandbox_id: SandboxId,
    pub frontend: FrontendKind,
    pub source: SocketAddress,
    pub destination: SocketAddress,
}

/// Key of a UDP pseudo-flow bridged to a host UDP handle.
pub type UdpFlowKey = BridgeFlowKey;

/// Key of a stack TCP flow bridged to a host TCP stream.
pub type StackTcpFlowKey = BridgeFlowKey;

impl View for BridgeFlowKey {
    type V = FlowKeyView;

    open spec fn view(&self) -> FlowKeyView {
        (self.sandbox_id@, self.frontend, self.source, self.destination)
    }
}

impl BridgeFlowKey {
    pub fn new(
        sandbox_id: SandboxId,
        frontend: FrontendKind,
        source: SocketAddress,
        destination: SocketAddress,
    ) -> (key: BridgeFlowKey)
        ensures
            key@ == (sandbox_id@, frontend, source, destination),
    {
        BridgeFlowKey { sandbox_id, frontend, source, destination }
    }

    pub fn duplicate(&self) -> (key: BridgeFlowKey)
        ensures
            key@ == self@,
    {
        BridgeFlowKey {
            sandbox_id: self.sandbox_id.duplicate(),
            frontend: self.frontend,
            source: self.source,
            destination: self.destination,
        }
    }

    /// The key of the flow that `event` carries data for.
    pub fn from_tcp_data(event: &StackTcpData) -> (key: BridgeFlowKey)
        ensures
            key@ == (event.sandbox_id@, event.frontend, event.source, event.destination),
    {
        BridgeFlowKey::new(event.sandbox_id.duplicate(), event.frontend, event.source, event.destination)
    }

    /// The key of the TCP flow that `event` attempts to open.
    pub fn from_connect_attempt(event: &TcpConnectAttempt) -> (key: BridgeFlowKey)
        ensures
            key@ == (event.sandbox_id@, event.frontend, socket_address_of(event.source),
            socket_address_of(event.destination)),
    {
        BridgeFlowKey::new(
            event.sandbox_id.duplicate(),
            event.frontend,
            socket_address(event.source),
            socket_address(event.destination),
        )
    }

    /// The key of the UDP pseudo-flow that `event` attempts to open.
    pub fn from_attempt(event: &UdpFlowAttempt) -> (key: BridgeFlowKey)
        ensures
            key@ == (event.sandbox_id@, event.frontend, socket_address_of(event.source),
            socket_address_of(event.destination)),
    {
        BridgeFlowKey::new(
            event.sandbox_id.duplicate(),
            event.frontend,
            socket_address(event.source),
            socket_address(event.destination),
        )
    }

    /// Whether both keys name the same flow.
    pub fn same_flow(&self, other: &BridgeFlowKey) -> (same: bool)
        ensures
            same == (self@ == other@),
    {
        self.sandbox_id.same_sandbox(&other.sandbox_id) && self.frontend == other.frontend
            && self.source == other.source && self.destination == other.destination
    }
}

/// The 32-bit big-endian value of IPv4 address octets.
pub open spec fn ipv4_value(ip: Seq<u8>) -> int {
    ((ip[0] as int * 256 + ip[1] as int) * 256 + ip[2] as int) * 256 + ip[3] as int
}

pub open spec fn socket_address_of(e: Ipv4Endpoint) -> SocketAddress {
    SocketAddress { ip: IpAddress::V4(ipv4_value(e.ip@) as u32), port: e.port }
}

fn socket_address(e: Ipv4Endpoint) -> (address: SocketAddress)
    ensures
        address == socket_address_of(e),
{
    let value: u32 = ((e.ip[0] as u32 * 256 + e.ip[1] as u32) * 256 + e.ip[2] as u32) * 256
        + e.ip[3] as u32;
    SocketAddress { ip: IpAddress::V4(value), port: e.port }
}

/// Number of keys in `keys` that belong to sandbox `sandbox`.
pub open spec fn sandbox_count(keys: Seq<FlowKeyView>, sandbox: Seq<char>) -> nat
    decreases keys.len(),
{
    if keys.len() == 0 {
        0
    } else {
        sandbox_count(keys.drop_last(), sandbox) + (if keys.last().0 == sandbox {
            1nat
        } else {
            0nat
        })
    }
}

pub proof fn lemma_sandbox_count_push(keys: Seq<FlowKeyView>, k: FlowKeyView, sandbox: Seq<char>)
    ensures
        sandbox_count(keys.push(k), sandbox) == sandbox_count(keys, sandbox) + (if k.0
            == sandbox {
            1nat
        } else {
            0nat
        }),
{
    assert(keys.push(k).drop_last() =~= keys);
}

pub proof fn lemma_sandbox_count_remove(keys: Seq<FlowKeyView>, i: int, sandbox: Seq<char>)
    requires
        0 <= i < keys.len(),
    ensures
        sandbox_count(keys, sandbox) == sandbox_count(keys.remove(i), sandbox) + (if keys[i].0
            == sandbox {
            1nat
        } else {
            0nat
        }),
    decreases keys.len(),
{
    if i == keys.len() - 1 {
        assert(keys.remove(i) =~= keys.drop_last());
    } else {
        lemma_sandbox_count_remove(keys.drop_last(), i, sandbox);
        assert(keys.remove(i).drop_last() =~= keys.drop_last().remove(i));
        assert(keys.remove(i).last() == keys.last());
    }
}

/// In a sequence without duplicates, `index_of` finds the only occurrence.
pub proof fn lemma_index_of_unique(keys: Seq<FlowKeyView>, k: FlowKeyView, i: int)
    requires
        keys.no_duplicates(),
        0 <= i < keys.len(),
        keys[i] == k,
    ensures
        keys.index_of(k) == i,
        keys.contains(k),
{
    assert(keys.contains(k));
    let j = keys.index_of(k);
    assert(0 <= j < keys.len() && keys[j] == k);
}

struct KeyedEntry<V> {
    key: BridgeFlowKey,
    value: V,
}

/// A table of values keyed by flow, with no key occurring twice.
struct KeyedTable<V> {
    entries: Vec<KeyedEntry<V>>,
}

impl<V> KeyedTable<V> {
    spec fn keys(&self) -> Seq<FlowKeyView> {
        self.entries@.map_values(|e: KeyedEntry<V>| e.key@)
    }

    spec fn wf(&self) -> bool {
        self.keys().no_duplicates()
    }

    fn empty() -> (table: KeyedTable<V>)
        ensures
            table.keys() == Seq::<FlowKeyView>::empty(),
            table.entries@.len() == 0,
            table.wf(),
    {
        let table = KeyedTable { entries: Vec::new() };
        assert(table.keys() =~= Seq::<FlowKeyView>::empty());
        table
    }

    fn len(&self) -> (len: usize)
        ensures
            len == self.keys().len(),
    {
        self.entries.len()
    }

    fn find(&self, key: &BridgeFlowKey) -> (found: Option<usize>)
        ensures
            found matches Some(i) ==> i < self.keys().len() && self.keys()[i as int] == key@,
            found is None ==> !self.keys().contains(key@),
    {
        let mut i: usize = 0;
        while i < self.entries.len()
            invariant
                i <= self.entries@.len(),
                forall|j: int| 0 <= j < i ==> self.keys()[j] != key@,
            decreases self.entries@.len() - i,
        {
            if self.entries[i].key.same_flow(key) {
                return Some(i);
            }
            i = i + 1;
        }
        proof {
            assert forall|j: int| 0 <= j < self.keys().len() implies self.keys()[j] != key@ by {}
        }
        None
    }

    fn count_sandbox(&self, sandbox_id: &SandboxId) -> (count: usize)
        ensures
            count == sandbox_count(self.keys(), sandbox_id@),
    {
        let mut count: usize = 0;
        let mut i: usize = 0;
        while i < self.entries.len()
            invariant
                i <= self.entries@.len(),
                count == sandbox_count(self.keys().subrange(0, i as int), sandbox_id@),
                count <= i,
            decreases self.entries@.len() - i,
        {
            proof {
                assert(self.keys().subrange(0, i + 1).drop_last() =~= self.keys().subrange(
                    0,
                    i as int,
                ));
            }
            if self.entries[i].key.sandbox_id.same_sandbox(sandbox_id) {
                count = count + 1;
            }
            i = i + 1;
        }
        proof {
            assert(self.keys().subrange(0, self.keys().len() as int) =~= self.keys());
        }
        count
    }

    fn push(&mut self, key: BridgeFlowKey, value: V)
        requires
            old(self).wf(),
            !old(self).keys().contains(key@),
        ensures
            final(self).keys() == old(self).keys().push(key@),
            final(self).wf(),
            final(self).entries@.len() == old(self).entries@.len() + 1,
            final(self).entries@.last().value == value,
            final(self).entries@.drop_last() == old(self).entries@,
    {
        self.entries.push(KeyedEntry { key, value });
        assert(self.keys() =~= old(self).keys().push(key@));
        assert(self.entries@.drop_last() =~= old(self).entries@);
    }

    fn remove_at(&mut self, i: usize) -> (value: V)
        requires
            old(self).wf(),
            i < old(self).keys().len(),
        ensures
            final(self).keys() == old(self).keys().remove(i as int),
            final(self).entries@ == old(self).entries@.remove(i as int),
            final(self).wf(),
            value == old(self).entries@[i as int].value,
    {
        let entry = self.entries.remove(i);
        assert(self.keys() =~= old(self).keys().remove(i as int));
        proof {
            let k = old(self).keys();
            assert forall|a: int, b: int|
                0 <= a < self.keys().len() && 0 <= b < self.keys().len() && a != b implies self.keys()[a]
                != self.keys()[b] by {
                let a2 = if a < i { a } else { a + 1 };
                let b2 = if b < i { b } else { b + 1 };
                assert(self.keys()[a] == k[a2]);
                assert(self.keys()[b] == k[b2]);
            }
        }
        entry.value
    }
}

// ---------------------------------------------------------------------------
// Host streams and errors.

/// Which bridge resource limit refused an operation.
#[derive(Clone, Copy, Debug, PartialEq, Eq, Structural)]
pub enum BridgeLimit {
    UdpFlows,
    UdpSandboxFlows,
    TcpStreams,
    TcpSandboxStreams,
    PendingSandboxBytes,
}

impl BridgeLimit {
    pub open spec fn message_spec(self) -> Seq<char> {
        match self {
            BridgeLimit::UdpFlows => "UDP bridge flow limit exceeded"@,
            BridgeLimit::UdpSandboxFlows => "UDP bridge sandbox flow limit exceeded"@,
            BridgeLimit::TcpStreams => "TCP bridge stream limit exceeded"@,
            BridgeLimit::TcpSandboxStreams => "TCP bridge sandbox stream limit exceeded"@,
            BridgeLimit::PendingSandboxBytes => "TCP bridge pending sandbox buffer limit exceeded"@,
        }
    }

    /// What the refusal tells an operator.
    pub fn message(&self) -> (message: &'static str)
        ensures
            message@ == self.message_spec(),
    {
        match self {
            BridgeLimit::UdpFlows => "UDP bridge flow limit exceeded",
            BridgeLimit::UdpSandboxFlows => "UDP bridge sandbox flow limit exceeded",
            BridgeLimit::TcpStreams => "TCP bridge stream limit exceeded",
            BridgeLimit::TcpSandboxStreams => "TCP bridge sandbox stream limit exceeded",
            BridgeLimit::PendingSandboxBytes => "TCP bridge pending sandbox buffer limit exceeded",
        }
    }
}

/// Failure of host egress or of a bridge limit.
#[derive(Clone, Debug, PartialEq, Eq)]
pub enum EgressError {
    LimitExceeded(BridgeLimit),
    StreamIo(String),
    InvalidTarget(String),
}

impl EgressError {
    /// A one-line description: the limit's message, or the text the host
    /// error carries.
    pub fn describe(&self) -> (text: String)
        ensures
            text@ == (match self {
                EgressError::LimitExceeded(limit) => limit.message_spec(),
                EgressError::StreamIo(detail) => detail@,
                EgressError::InvalidTarget(detail) => detail@,
            }),
    {
        match self {
            EgressError::LimitExceeded(limit) => limit.message().to_owned(),
            EgressError::StreamIo(detail) => detail.clone(),
            EgressError::InvalidTarget(detail) => detail.clone(),
        }
    }
}

/// A host TCP stream opened through shared egress for one sandbox flow.
pub trait HostTcpStream {
    /// The byte slices handed to `write_from_sandbox` so far, oldest first.
    closed spec fn sandbox_writes(&self) -> Seq<Seq<u8>> {
        Seq::empty()
    }

    /// What each call of `write_from_sandbox` returned, aligned with
    /// `sandbox_writes`.
    closed spec fn write_results(&self) -> Seq<Result<usize, EgressError>> {
        Seq::empty()
    }

    /// The byte limits handed to `read_to_sandbox` so far, oldest first.
    closed spec fn host_reads(&self) -> Seq<usize> {
        Seq::empty()
    }

    /// What each call of `read_to_sandbox` returned, aligned with
    /// `host_reads`.
    closed spec fn read_results(&self) -> Seq<Result<Vec<u8>, EgressError>> {
        Seq::empty()
    }

    /// Writes a prefix of `bytes` without blocking and returns its length.
    fn write_from_sandbox(&mut self, bytes: &[u8]) -> (result: Result<usize, EgressError>)
        ensures
            final(self).sandbox_writes() == old(self).sandbox_writes().push(bytes@),
            final(self).write_results() == old(self).write_results().push(result),
            final(self).host_reads() == old(self).host_reads(),
            final(self).read_results() == old(self).read_results(),
    ;

    /// Reads at most `max_bytes` bytes the host sent, without blocking.
    fn read_to_sandbox(&mut self, max_bytes: usize) -> (result: Result<Vec<u8>, EgressError>)
        ensures
            final(self).sandbox_writes() == old(self).sandbox_writes(),
            final(self).write_results() == old(self).write_results(),
            final(self).host_reads() == old(self).host_reads().push(max_bytes),
            final(self).read_results() == old(self).read_results().push(result),
    ;
}

/// A host UDP flow opened through shared egress for one sandbox flow.
pub trait HostUdpFlow {
    /// The byte limits handed to `recv_to_sandbox` so far, oldest first.
    closed spec fn recv_requests(&self) -> Seq<usize> {
        Seq::empty()
    }

    /// What each call of `recv_to_sandbox` returned, aligned with
    /// `recv_requests`.
    closed spec fn recv_results(&self) -> Seq<Result<Vec<u8>, EgressError>> {
        Seq::empty()
    }

    /// Receives at most `max_bytes` bytes of one host reply, without blocking.
    fn recv_to_sandbox(&mut self, max_bytes: usize) -> (result: Result<Vec<u8>, EgressError>)
        ensures
            final(self).recv_requests() == old(self).recv_requests().push(max_bytes),
            final(self).recv_results() == old(self).recv_results().push(result),
    ;
}

/// A host write result, refused when the host claims to have written more
/// than `len` bytes.
fn checked_written(got: Result<usize, EgressError>, len: usize) -> (r: Result<usize, EgressError>)
    ensures
        r matches Ok(n) ==> n <= len,
        got matches Ok(n) && n <= len ==> r == got,
        (got matches Ok(n) && n > len) ==> r matches Err(EgressError::StreamIo(_)),
        got is Err ==> r == got,
{
    match got {
        Ok(n) => if n > len {
            Err(EgressError::StreamIo("host stream reported more bytes written than given".to_owned()))
        } else {
            Ok(n)
        },
        Err(e) => Err(e),
    }
}

/// What comes of a host write of `bytes` that returned `got`, nothing being
/// queued before it, under a pending-byte limit of `max_pending`: the result
/// and the bytes left to queue for a later flush.
pub open spec fn settles(
    bytes: Seq<u8>,
    got: Result<usize, EgressError>,
    max_pending: usize,
    result: Result<usize, EgressError>,
    queued: Seq<u8>,
) -> bool {
    match got {
        Err(e) => result == Err::<usize, EgressError>(e) && queued.len() == 0,
        Ok(n) => if n > bytes.len() {
            (result matches Err(EgressError::StreamIo(_))) && queued.len() == 0
        } else if bytes.len() - n > max_pending {
            result == Err::<usize, EgressError>(
                EgressError::LimitExceeded(BridgeLimit::PendingSandboxBytes),
            ) && queued.len() == 0
        } else {
            result == Ok::<usize, EgressError>(n) && queued == bytes.skip(n as int)
        },
    }
}

/// Settles a host write of `bytes` that returned `got` (see `settles`): a
/// failed write is passed on; a stream claiming more than it was given is
/// an error; the count it accepted is returned and the rest is queued,
/// unless the rest exceeds the pending-byte limit.
pub fn settle_host_write(bytes: &[u8], got: Result<usize, EgressError>, max_pending: usize) -> (settled: (
    Result<usize, EgressError>,
    Vec<u8>,
))
    ensures
        settles(bytes@, got, max_pending, settled.0, settled.1@),
{
    match checked_written(got, bytes.len()) {
        Err(e) => (Err(e), Vec::new()),
        Ok(n) => if bytes.len() - n > max_pending {
            (Err(EgressError::LimitExceeded(BridgeLimit::PendingSandboxBytes)), Vec::new())
        } else {
            let rest = copy_range(bytes, n, bytes.len());
            assert(rest@ =~= bytes@.skip(n as int));
            (Ok(n), rest)
        },
    }
}

/// Bytes a stream accepted over writes of `slices` that returned
/// `results`: each `Ok` count that does not exceed its slice.
pub open spec fn accepted_total(slices: Seq<Seq<u8>>, results: Seq<Result<usize, EgressError>>) -> nat
    decreases results.len(),
{
    if results.len() == 0 || slices.len() == 0 {
        0
    } else {
        accepted_total(slices.drop_last(), results.drop_last()) + match results.last() {
            Ok(m) => if m <= slices.last().len() {
                m as nat
            } else {
                0nat
            },
            Err(_) => 0nat,
        }
    }
}

/// Whether stream `s1`, after a flush of `pending` from stream `s0`, took
/// exactly what it accepted off the front of `pending`: the new write
/// results align with the new writes, and what is left is `pending`
/// without the accepted bytes.
pub open spec fn flushed_as_accepted<T: HostTcpStream>(s0: T, s1: T, pending: Seq<u8>, left: Seq<u8>) -> bool {
    let w0 = s0.sandbox_writes();
    let w1 = s1.sandbox_writes();
    let r0 = s0.write_results();
    let r1 = s1.write_results();
    &&& r1.take(r0.len() as int) == r0
    &&& r1.len() - r0.len() == w1.len() - w0.len()
    &&& left == pending.skip(accepted_total(w1.skip(w0.len() as int), r1.skip(r0.len() as int)) as int)
}

/// What comes of flushing the queued `chunk` to the host stream when the
/// stream returned `got`: the count it accepted and the part it did not.
pub open spec fn flush_settles(
    chunk: Seq<u8>,
    got: Result<usize, EgressError>,
    result: Result<usize, EgressError>,
    rest: Seq<u8>,
) -> bool {
    match got {
        Err(e) => result == Err::<usize, EgressError>(e),
        Ok(n) => if n > chunk.len() {
            result matches Err(EgressError::StreamIo(_))
        } else {
            result == Ok::<usize, EgressError>(n) && rest == chunk.skip(n as int)
        },
    }
}

/// Settles a flush of the queued `chunk` that returned `got` (see
/// `flush_settles`).
pub fn settle_flush_write(chunk: &[u8], got: Result<usize, EgressError>) -> (settled: (
    Result<usize, EgressError>,
    Vec<u8>,
))
    ensures
        flush_settles(chunk@, got, settled.0, settled.1@),
{
    match checked_written(got, chunk.len()) {
        Err(e) => (Err(e), Vec::new()),
        Ok(n) => {
            let rest = copy_range(chunk, n, chunk.len());
            assert(rest@ =~= chunk@.skip(n as int));
            (Ok(n), rest)
        },
    }
}

/// A host read result, refused when the host returns more than `cap` bytes.
pub fn checked_read(got: Result<Vec<u8>, EgressError>, cap: usize) -> (r: Result<Vec<u8>, EgressError>)
    ensures
        r matches Ok(b) ==> b@.len() <= cap,
        got matches Ok(b) && b@.len() <= cap ==> r == got,
        (got matches Ok(b) && b@.len() > cap) ==> r matches Err(EgressError::StreamIo(_)),
        got is Err ==> r == got,
{
    match got {
        Ok(b) => if b.len() > cap {
            Err(EgressError::StreamIo("host returned more bytes than asked for".to_owned()))
        } else {
            Ok(b)
        },
        Err(e) => Err(e),
    }
}

// ---------------------------------------------------------------------------
// One TCP bridge with its pending sandbox-to-host buffer.

#[derive(Clone, Copy, Debug, PartialEq, Eq, Structural)]
pub struct StackTcpBridgeLimits {
    pub max_pending_sandbox_bytes: usize,
    pub max_streams: usize,
    pub max_streams_per_sandbox: usize,
}

pub open spec fn default_tcp_limits() -> StackTcpBridgeLimits {
    StackTcpBridgeLimits {
        max_pending_sandbox_bytes: DEFAULT_MAX_PENDING_SANDBOX_BYTES,
        max_streams: DEFAULT_MAX_TCP_BRIDGES,
        max_streams_per_sandbox: DEFAULT_MAX_TCP_BRIDGES_PER_SANDBOX,
    }
}

impl Default for StackTcpBridgeLimits {
    fn default() -> (limits: StackTcpBridgeLimits)
        ensures
            limits == default_tcp_limits(),
    {
        StackTcpBridgeLimits {
            max_pending_sandbox_bytes: DEFAULT_MAX_PENDING_SANDBOX_BYTES,
            max_streams: DEFAULT_MAX_TCP_BRIDGES,
            max_streams_per_sandbox: DEFAULT_MAX_TCP_BRIDGES_PER_SANDBOX,
        }
    }
}

struct StackTcpBridge<T> {
    stream: T,
    pending_sandbox_to_host: VecDeque<Vec<u8>>,
    first_payload_inspected: bool,
}

/// The chunks of a pending buffer as byte sequences.
spec fn chunks_of(pending: Seq<Vec<u8>>) -> Seq<Seq<u8>> {
    pending.map_values(|v: Vec<u8>| v@)
}

proof fn lemma_skip_across_chunk(old_flat: Seq<u8>, total: int, chunk: Seq<u8>, rest: Seq<u8>, n: int)
    requires
        0 <= total <= old_flat.len(),
        old_flat.skip(total) == chunk + rest,
        0 <= n <= chunk.len(),
    ensures
        old_flat.skip(total + n) == chunk.skip(n) + rest,
        total + n <= old_flat.len(),
{
    assert(old_flat.skip(total + n) =~= (chunk + rest).skip(n));
    assert((chunk + rest).skip(n) =~= chunk.skip(n) + rest);
}

impl<T> StackTcpBridge<T> {
    spec fn pending_chunks(&self) -> Seq<Seq<u8>> {
        chunks_of(self.pending_sandbox_to_host@)
    }

    /// All bytes still waiting to be written to the host, in order.
    spec fn pending_flat(&self) -> Seq<u8> {
        self.pending_chunks().flatten()
    }

    fn new(stream: T) -> (bridge: StackTcpBridge<T>)
        ensures
            bridge.pending_flat() == Seq::<u8>::empty(),
            bridge.pending_chunks().len() == 0,
            bridge.stream == stream,
            !bridge.first_payload_inspected,
    {
        let bridge = StackTcpBridge {
            stream,
            pending_sandbox_to_host: VecDeque::new(),
            first_payload_inspected: false,
        };
        assert(bridge.pending_chunks() =~= Seq::<Seq<u8>>::empty());
        bridge
    }

    fn pending_sandbox_bytes(&self) -> (total: usize)
        requires
            self.pending_flat().len() <= usize::MAX,
        ensures
            total == self.pending_flat().len(),
    {
        let ghost chunks = self.pending_chunks();
        let mut total: usize = 0;
        let mut i: usize = 0;
        proof {
            assert(chunks.subrange(0, 0) =~= Seq::<Seq<u8>>::empty());
        }
        while i < self.pending_sandbox_to_host.len()
            invariant
                chunks == self.pending_chunks(),
                i <= chunks.len(),
                chunks.len() == self.pending_sandbox_to_host@.len(),
                total == chunks.subrange(0, i as int).flatten().len(),
                chunks.flatten().len() <= usize::MAX,
            decreases chunks.len() - i,
        {
            proof {
                assert(chunks.subrange(0, i + 1) =~= chunks.subrange(0, i as int).push(chunks[i as int]));
                chunks.subrange(0, i as int).lemma_flatten_push(chunks[i as int]);
                vstd::seq_lib::lemma_flatten_concat(
                    chunks.subrange(0, i + 1),
                    chunks.subrange(i + 1, chunks.len() as int),
                );
                assert(chunks.subrange(0, i + 1) + chunks.subrange(i + 1, chunks.len() as int)
                    =~= chunks);
            }
            total = total + self.pending_sandbox_to_host[i].len();
            i = i + 1;
        }
        proof {
            assert(chunks.subrange(0, chunks.len() as int) =~= chunks);
        }
        total
    }

    /// Appends `bytes` to the pending buffer unless that would exceed the
    /// pending-byte limit.
    fn queue_pending_sandbox_bytes(&mut self, bytes: &[u8], limits: StackTcpBridgeLimits) -> (result:
        Result<(), EgressError>)
        requires
            old(self).pending_flat().len() <= limits.max_pending_sandbox_bytes,
        ensures
            result is Ok <==> old(self).pending_flat().len() + bytes@.len()
                <= limits.max_pending_sandbox_bytes,
            result is Ok ==> final(self).pending_flat() == old(self).pending_flat() + bytes@,
            result is Err ==> final(self).pending_flat() == old(self).pending_flat(),
            result matches Err(e) ==> e == EgressError::LimitExceeded(BridgeLimit::PendingSandboxBytes),
            final(self).stream == old(self).stream,
            final(self).first_payload_inspected == old(self).first_payload_inspected,
            final(self).pending_chunks().len() >= old(self).pending_chunks().len(),
    {
        let pending = self.pending_sandbox_bytes();
        if bytes.len() > limits.max_pending_sandbox_bytes - pending {
            return Err(EgressError::LimitExceeded(BridgeLimit::PendingSandboxBytes));
        }
        let chunk = copy_range(bytes, 0, bytes.len());
        assert(bytes@.subrange(0, bytes@.len() as int) =~= bytes@);
        let ghost before = self.pending_chunks();
        self.pending_sandbox_to_host.push_back(chunk);
        proof {
            assert(self.pending_chunks() =~= before.push(bytes@));
            before.lemma_flatten_push(bytes@);
        }
        Ok(())
    }
}



impl<T> StackTcpBridge<T> {
    /// Marks the first payload as inspected; true when it was not yet.
    fn mark_inspected(&mut self) -> (first: bool)
        ensures
            first == !old(self).first_payload_inspected,
            final(self).first_payload_inspected,
            final(self).stream == old(self).stream,
            final(self).pending_sandbox_to_host == old(self).pending_sandbox_to_host,
    {
        if self.first_payload_inspected {
            false
        } else {
            self.first_payload_inspected = true;
            true
        }
    }
}

impl<T: HostTcpStream> StackTcpBridge<T> {
    /// Writes sandbox bytes to the host stream, keeping what the stream does
    /// not accept (or everything, while older bytes are still pending) in
    /// the pending buffer so that byte order is preserved; a stream that
    /// claims to have written more than it was given is an error.
    fn write_from_sandbox(&mut self, bytes: &[u8], limits: StackTcpBridgeLimits) -> (result: Result<
        usize,
        EgressError,
    >)
        requires
            old(self).pending_flat().len() <= limits.max_pending_sandbox_bytes,
        ensures
            final(self).pending_flat().len() <= limits.max_pending_sandbox_bytes,
            result matches Ok(n) ==> {
                &&& n <= bytes@.len()
                &&& old(self).pending_flat() + bytes@ == bytes@.subrange(0, n as int)
                    + final(self).pending_flat()
                &&& old(self).pending_flat().len() > 0 ==> n == 0
            },
            result is Err ==> final(self).pending_flat() == old(self).pending_flat(),
            old(self).pending_chunks().len() > 0 ==> if old(self).pending_flat().len() + bytes@.len()
                <= limits.max_pending_sandbox_bytes {
                result == Ok::<usize, EgressError>(0)
            } else {
                result == Err::<usize, EgressError>(
                    EgressError::LimitExceeded(BridgeLimit::PendingSandboxBytes),
                )
            },
            final(self).first_payload_inspected == old(self).first_payload_inspected,
            old(self).pending_chunks().len() > 0 ==> final(self).stream.sandbox_writes() == old(
                self,
            ).stream.sandbox_writes(),
            old(self).pending_chunks().len() == 0 ==> final(self).stream.sandbox_writes() == old(
                self,
            ).stream.sandbox_writes().push(bytes@),
            old(self).pending_chunks().len() > 0 ==> final(self).stream.write_results() == old(
                self,
            ).stream.write_results() && final(self).pending_chunks().len() > 0,
            old(self).pending_chunks().len() == 0 ==> ({
                let got = final(self).stream.write_results().last();
                &&& final(self).stream.write_results() == old(self).stream.write_results().push(got)
                &&& settles(bytes@, got, limits.max_pending_sandbox_bytes, result, final(self).pending_flat())
                &&& (final(self).pending_chunks().len() > 0 <==> final(self).pending_flat().len() > 0)
            }),
            final(self).stream.host_reads() == old(self).stream.host_reads(),
            final(self).stream.read_results() == old(self).stream.read_results(),
    {
        if self.pending_sandbox_to_host.len() > 0 {
            proof {
                let c = self.pending_chunks();
                assert(c.len() > 0);
                assert(c.flatten() == c.first() + c.drop_first().flatten());
            }
            let queued = self.queue_pending_sandbox_bytes(bytes, limits);
            return match queued {
                Ok(()) => {
                    assert(bytes@.subrange(0, 0) =~= Seq::<u8>::empty());
                    assert(old(self).pending_flat() + bytes@ =~= bytes@.subrange(0, 0)
                        + self.pending_flat());
                    Ok(0)
                },
                Err(e) => Err(e),
            };
        }
        proof {
            assert(self.pending_chunks().len() == 0);
            assert(self.pending_flat() =~= Seq::<u8>::empty());
        }
        let got = self.stream.write_from_sandbox(bytes);
        let (result, rest) = settle_host_write(bytes, got, limits.max_pending_sandbox_bytes);
        if rest.len() > 0 {
            let ghost before = self.pending_chunks();
            self.pending_sandbox_to_host.push_back(rest);
            proof {
                assert(self.pending_chunks() =~= before.push(rest@));
                before.lemma_flatten_push(rest@);
                assert(before.flatten() =~= Seq::<u8>::empty());
                assert(self.pending_flat() =~= rest@);
            }
        } else {
            proof {
                assert(self.pending_flat() =~= rest@);
            }
        }
        proof {
            if let Ok(n) = result {
                assert(bytes@ =~= bytes@.subrange(0, n as int) + bytes@.skip(n as int));
            }
        }
        result
    }

    /// Writes pending bytes to the host stream in order until the buffer is
    /// empty or the stream accepts only part of a chunk; returns the number
    /// of bytes written.
    fn flush_pending_sandbox_writes(&mut self) -> (result: Result<usize, EgressError>)
        requires
            old(self).pending_flat().len() <= usize::MAX,
        ensures
            result matches Ok(total) ==> total <= old(self).pending_flat().len()
                && final(self).pending_flat() == old(self).pending_flat().skip(total as int),
            result is Err ==> final(self).pending_flat().len() <= old(self).pending_flat().len()
                && final(self).pending_flat() == old(self).pending_flat().skip(
                old(self).pending_flat().len() - final(self).pending_flat().len(),
            ),
            old(self).pending_chunks().len() == 0 ==> result == Ok::<usize, EgressError>(0)
                && final(self).pending_chunks().len() == 0 && final(self).stream == old(self).stream,
            result is Ok ==> (final(self).pending_chunks().len() > 0 <==> final(self).pending_flat().len()
                > 0),
            final(self).first_payload_inspected == old(self).first_payload_inspected,
            final(self).stream.host_reads() == old(self).stream.host_reads(),
            final(self).stream.read_results() == old(self).stream.read_results(),
            ({
                let w0 = old(self).stream.sandbox_writes();
                let w1 = final(self).stream.sandbox_writes();
                let r0 = old(self).stream.write_results();
                let r1 = final(self).stream.write_results();
                let chunks = old(self).pending_chunks();
                let k = w1.len() - w0.len();
                &&& w0.len() <= w1.len()
                &&& k <= chunks.len()
                &&& w1 == w0 + chunks.take(k)
                &&& chunks.len() > 0 ==> k >= 1
                &&& (result is Ok && k < chunks.len()) ==> final(self).pending_flat().len() > 0
                &&& r1.len() == r0.len() + k
                &&& r1.take(r0.len() as int) == r0
                &&& forall|j: int|
                    0 <= j < k - 1 ==> #[trigger] r1[r0.len() + j] == Ok::<usize, EgressError>(
                        chunks[j].len() as usize,
                    )
                &&& result matches Ok(total) ==> {
                    &&& total == accepted_total(w1.skip(w0.len() as int), r1.skip(r0.len() as int))
                    &&& k == chunks.len() || (r1.last() matches Ok(m) && m < chunks[k - 1].len())
                    &&& k > 0 ==> (r1.last() matches Ok(m) && m <= chunks[k - 1].len())
                }
                &&& result matches Err(e) ==> k > 0 && (r1.last() == Err::<usize, EgressError>(e)
                    || (r1.last() matches Ok(m) && m > chunks[k - 1].len()))
            }),
    {
        let ghost old_flat = self.pending_flat();
        let ghost old_chunks = self.pending_chunks();
        let ghost w0 = self.stream.sandbox_writes();
        let ghost r0 = self.stream.write_results();
        let ghost mut k: int = 0;
        let mut total: usize = 0;
        let mut blocked = false;
        proof {
            assert(old_flat.skip(0) =~= old_flat);
            assert(old_chunks.skip(0) =~= old_chunks);
            assert(w0 + old_chunks.take(0) =~= w0);
            assert(self.stream.sandbox_writes().skip(w0.len() as int) =~= Seq::<Seq<u8>>::empty());
            assert(self.stream.write_results().skip(r0.len() as int) =~= Seq::<
                Result<usize, EgressError>,
            >::empty());
            assert(self.stream.write_results().take(r0.len() as int) =~= r0);
        }
        while !blocked && self.pending_sandbox_to_host.len() > 0
            invariant
                total <= old_flat.len(),
                old_flat == old(self).pending_flat(),
                old_chunks == old(self).pending_chunks(),
                w0 == old(self).stream.sandbox_writes(),
                r0 == old(self).stream.write_results(),
                old_flat.len() <= usize::MAX,
                old_flat.skip(total as int) == self.pending_flat(),
                self.first_payload_inspected == old(self).first_payload_inspected,
                self.stream.host_reads() == old(self).stream.host_reads(),
                self.stream.read_results() == old(self).stream.read_results(),
                old(self).pending_sandbox_to_host@.len() == 0 ==> total == 0
                    && self.pending_sandbox_to_host@.len() == 0 && self.stream == old(self).stream,
                0 <= k <= old_chunks.len(),
                self.stream.sandbox_writes() == w0 + old_chunks.take(k),
                self.stream.write_results().len() == r0.len() + k,
                self.stream.write_results().take(r0.len() as int) == r0,
                forall|j: int|
                    0 <= j < k && !(blocked && j == k - 1) ==> #[trigger] self.stream.write_results()[r0.len()
                        + j] == Ok::<usize, EgressError>(old_chunks[j].len() as usize),
                blocked ==> (self.stream.write_results().last() matches Ok(m) && m < old_chunks[k - 1].len()),
                total == accepted_total(
                    self.stream.sandbox_writes().skip(w0.len() as int),
                    self.stream.write_results().skip(r0.len() as int),
                ),
                !blocked ==> self.pending_chunks() == old_chunks.skip(k),
                blocked ==> k >= 1 && self.pending_flat().len() > 0 && self.pending_chunks().len() > 0,
            ensures
                blocked || self.pending_sandbox_to_host@.len() == 0,
            decreases self.pending_sandbox_to_host@.len() * 2 + (if blocked {
                0int
            } else {
                1int
            }),
        {
            let ghost chunks = self.pending_chunks();
            let ghost ws = self.stream.sandbox_writes();
            let ghost rs = self.stream.write_results();
            proof {
                assert(chunks.flatten() == chunks.first() + chunks.drop_first().flatten());
            }
            let chunk = match self.pending_sandbox_to_host.pop_front() {
                Some(chunk) => chunk,
                None => {
                    break;
                },
            };
            proof {
                assert(self.pending_chunks() =~= chunks.drop_first());
                assert(chunk@ == old_chunks[k]);
                assert(chunks.drop_first() =~= old_chunks.skip(k + 1));
            }
            let got = self.stream.write_from_sandbox(chunk.as_slice());
            let (settled, rest) = settle_flush_write(chunk.as_slice(), got);
            proof {
                assert(old_chunks.take(k + 1) =~= old_chunks.take(k).push(chunk@));
                assert(self.stream.sandbox_writes() =~= w0 + old_chunks.take(k + 1));
                let nw = self.stream.sandbox_writes().skip(w0.len() as int);
                let nr = self.stream.write_results().skip(r0.len() as int);
                assert(nw.drop_last() =~= ws.skip(w0.len() as int));
                assert(nr.drop_last() =~= rs.skip(r0.len() as int));
                assert(nw.last() == chunk@);
                assert(nr.last() == got);
                assert(self.stream.write_results().take(r0.len() as int) =~= r0);
                assert forall|j: int| 0 <= j < k implies #[trigger] self.stream.write_results()[r0.len()
                    + j] == rs[r0.len() + j] by {}
                k = k + 1;
            }
            let written = match settled {
                Ok(n) => n,
                Err(e) => {
                    proof {
                        lemma_skip_across_chunk(
                            old_flat,
                            total as int,
                            chunk@,
                            self.pending_flat(),
                            chunk@.len() as int,
                        );
                        assert(chunk@.skip(chunk@.len() as int) + self.pending_flat()
                            =~= self.pending_flat());
                        assert(self.pending_flat() == old_flat.skip(total + chunk@.len()));
                        assert(self.pending_flat().len() == old_flat.len() - (total
                            + chunk@.len()));
                    }
                    return Err(e);
                },
            };
            proof {
                lemma_skip_across_chunk(
                    old_flat,
                    total as int,
                    chunk@,
                    self.pending_flat(),
                    written as int,
                );
            }
            total = total + written;
            if written < chunk.len() {
                let ghost before = self.pending_chunks();
                self.pending_sandbox_to_host.push_front(rest);
                proof {
                    assert(self.pending_chunks() =~= seq![rest@] + before);
                    assert((seq![rest@] + before).drop_first() =~= before);
                }
                blocked = true;
            } else {
                assert(chunk@.skip(written as int) + self.pending_flat() =~= self.pending_flat());
            }
        }
        proof {
            assert(old_chunks.take(k).len() == k);
            if !blocked {
                assert(self.pending_chunks().len() == self.pending_sandbox_to_host@.len());
                assert(old_chunks.skip(k).len() == 0);
                if k > 0 {
                    assert(self.stream.write_results()[r0.len() + (k - 1)] == Ok::<usize, EgressError>(
                        old_chunks[k - 1].len() as usize,
                    ));
                }
            }
            if self.pending_chunks().len() == 0 {
                assert(self.pending_chunks() =~= Seq::<Seq<u8>>::empty());
                assert(self.pending_flat() =~= Seq::<u8>::empty());
            }
        }
        Ok(total)
    }

}


// ---------------------------------------------------------------------------
// The TCP bridge table.

/// Runtime-owned table from stack TCP flows to host TCP streams, holding at
/// most `max_streams` streams and `max_streams_per_sandbox` per sandbox.
pub struct StackTcpBridgeTable<T> {
    streams: KeyedTable<StackTcpBridge<T>>,
    limits: StackTcpBridgeLimits,
    read_cursor: usize,
}

impl<T> StackTcpBridgeTable<T> {
    /// Keys of the bridged flows.
    pub closed spec fn keys(&self) -> Seq<FlowKeyView> {
        self.streams.keys()
    }

    /// Host streams, aligned with `keys`.
    pub closed spec fn streams(&self) -> Seq<T> {
        self.streams.entries@.map_values(|e: KeyedEntry<StackTcpBridge<T>>| e.value.stream)
    }

    /// Pending sandbox-to-host bytes of each flow, aligned with `keys`.
    pub closed spec fn pending(&self) -> Seq<Seq<u8>> {
        self.streams.entries@.map_values(
            |e: KeyedEntry<StackTcpBridge<T>>| e.value.pending_flat(),
        )
    }

    pub closed spec fn limits_spec(&self) -> StackTcpBridgeLimits {
        self.limits
    }

    pub closed spec fn read_cursor_spec(&self) -> usize {
        self.read_cursor
    }

    /// Whether each flow has chunks queued for its host stream (possibly
    /// empty ones), aligned with `keys`. A flow with queued chunks hands new
    /// sandbox bytes to the queue, not to the stream.
    pub closed spec fn queued(&self) -> Seq<bool> {
        self.streams.entries@.map_values(
            |e: KeyedEntry<StackTcpBridge<T>>| e.value.pending_chunks().len() > 0,
        )
    }

    /// Whether each flow's first payload has been inspected, aligned with
    /// `keys`.
    pub closed spec fn inspected(&self) -> Seq<bool> {
        self.streams.entries@.map_values(
            |e: KeyedEntry<StackTcpBridge<T>>| e.value.first_payload_inspected,
        )
    }

    /// The table's invariant: keys are distinct, the stream limits hold, and
    /// no flow buffers more than the pending-byte limit.
    pub closed spec fn wf(&self) -> bool {
        &&& self.streams.wf()
        &&& self.keys().len() <= self.limits.max_streams
        &&& forall|s: Seq<char>| sandbox_count(self.keys(), s) <= self.limits.max_streams_per_sandbox
        &&& forall|i: int|
            0 <= i < self.pending().len() ==> #[trigger] self.pending()[i].len()
                <= self.limits.max_pending_sandbox_bytes
    }

    /// Whether inserting a flow with key `k` succeeds under the limits.
    pub open spec fn admits(&self, k: FlowKeyView) -> bool {
        ||| self.keys().contains(k)
        ||| (self.keys().len() < self.limits_spec().max_streams && sandbox_count(self.keys(), k.0)
            < self.limits_spec().max_streams_per_sandbox)
    }

    /// An empty table with the given limits.
    pub fn with_limits(limits: StackTcpBridgeLimits) -> (table: StackTcpBridgeTable<T>)
        ensures
            table.wf(),
            table.keys() == Seq::<FlowKeyView>::empty(),
            table.limits_spec() == limits,
            table.read_cursor_spec() == 0,
    {
        let table = StackTcpBridgeTable { streams: KeyedTable::empty(), limits, read_cursor: 0 };
        proof {
            assert(table.pending() =~= Seq::<Seq<u8>>::empty());
            assert forall|s: Seq<char>| sandbox_count(table.keys(), s) <= limits.max_streams_per_sandbox by {}
        }
        table
    }

    /// An empty table with the default limits.
    pub fn new() -> (table: StackTcpBridgeTable<T>)
        ensures
            table.wf(),
            table.keys() == Seq::<FlowKeyView>::empty(),
            table.limits_spec() == default_tcp_limits(),
            table.read_cursor_spec() == 0,
    {
        Self::with_limits(StackTcpBridgeLimits::default())
    }

    pub fn limits(&self) -> (limits: StackTcpBridgeLimits)
        ensures
            limits == self.limits_spec(),
    {
        self.limits
    }

    pub fn len(&self) -> (len: usize)
        ensures
            len == self.keys().len(),
    {
        self.streams.len()
    }

    pub fn read_cursor(&self) -> (cursor: usize)
        ensures
            cursor == self.read_cursor_spec(),
    {
        self.read_cursor
    }

    pub fn is_empty(&self) -> (empty: bool)
        ensures
            empty == (self.keys().len() == 0),
    {
        self.streams.len() == 0
    }

    pub fn contains_key(&self, key: &StackTcpFlowKey) -> (contains: bool)
        ensures
            contains == self.keys().contains(key@),
    {
        self.streams.find(key).is_some()
    }

    /// Stores `stream` for `key`. A key already present has its stream (and
    /// pending buffer) replaced, whatever the limits; a new key is refused
    /// when the table or the key's sandbox is at its stream limit.
    pub fn try_insert(&mut self, key: StackTcpFlowKey, stream: T) -> (result: Result<
        Option<T>,
        EgressError,
    >)
        requires
            old(self).wf(),
        ensures
            final(self).wf(),
            final(self).limits_spec() == old(self).limits_spec(),
            final(self).read_cursor_spec() == old(self).read_cursor_spec(),
            result is Ok <==> old(self).admits(key@),
            old(self).keys().contains(key@) ==> {
                let i = old(self).keys().index_of(key@);
                &&& result == Ok::<Option<T>, EgressError>(Some(old(self).streams()[i]))
                &&& final(self).keys() == old(self).keys()
                &&& final(self).streams() == old(self).streams().update(i, stream)
                &&& final(self).pending() == old(self).pending().update(i, Seq::<u8>::empty())
                &&& final(self).inspected() == old(self).inspected().update(i, false)
                &&& final(self).queued() == old(self).queued().update(i, false)
            },
            !old(self).keys().contains(key@) && old(self).admits(key@) ==> {
                &&& result == Ok::<Option<T>, EgressError>(None)
                &&& final(self).keys() == old(self).keys().push(key@)
                &&& final(self).streams() == old(self).streams().push(stream)
                &&& final(self).pending() == old(self).pending().push(Seq::<u8>::empty())
                &&& final(self).inspected() == old(self).inspected().push(false)
                &&& final(self).queued() == old(self).queued().push(false)
            },
            !old(self).admits(key@) ==> {
                &&& final(self).keys() == old(self).keys()
                &&& final(self).streams() == old(self).streams()
                &&& final(self).pending() == old(self).pending()
                &&& final(self).inspected() == old(self).inspected()
                &&& final(self).queued() == old(self).queued()
                &&& result == Err::<Option<T>, EgressError>(
                    if old(self).keys().len() >= old(self).limits_spec().max_streams {
                        EgressError::LimitExceeded(BridgeLimit::TcpStreams)
                    } else {
                        EgressError::LimitExceeded(BridgeLimit::TcpSandboxStreams)
                    },
                )
            },
    {
        match self.streams.find(&key) {
            Some(i) => {
                let ghost old_keys = self.keys();
                proof {
                    lemma_index_of_unique(old_keys, key@, i as int);
                }
                let mut fresh = StackTcpBridge::new(stream);
                std::mem::swap(&mut self.streams.entries[i].value, &mut fresh);
                proof {
                    assert(self.keys() =~= old(self).keys());
                    assert(self.streams() =~= old(self).streams().update(i as int, stream));
                    assert(self.pending() =~= old(self).pending().update(
                        i as int,
                        Seq::<u8>::empty(),
                    ));
                    assert(self.inspected() =~= old(self).inspected().update(i as int, false));
                    assert(self.queued() =~= old(self).queued().update(i as int, false));
                }
                Ok(Some(fresh.stream))
            },
            None => {
                if self.streams.len() >= self.limits.max_streams {
                    return Err(EgressError::LimitExceeded(BridgeLimit::TcpStreams));
                }
                let sandbox_streams = self.streams.count_sandbox(&key.sandbox_id);
                if sandbox_streams >= self.limits.max_streams_per_sandbox {
                    return Err(EgressError::LimitExceeded(BridgeLimit::TcpSandboxStreams));
                }
                let ghost k = key@;
                let ghost old_keys = self.keys();
                let bridge = StackTcpBridge::new(stream);
                self.streams.push(key, bridge);
                proof {
                    assert(self.streams.entries@ =~= old(self).streams.entries@.push(
                        self.streams.entries@.last(),
                    ));
                    assert(self.streams() =~= old(self).streams().push(stream));
                    assert(self.pending() =~= old(self).pending().push(Seq::<u8>::empty()));
                    assert(self.inspected() =~= old(self).inspected().push(false));
                    assert(self.queued() =~= old(self).queued().push(false));
                    assert forall|s: Seq<char>|
                        sandbox_count(self.keys(), s) <= self.limits.max_streams_per_sandbox by {
                        lemma_sandbox_count_push(old_keys, k, s);
                    }
                }
                Ok(None)
            },
        }
    }

    /// Stores `stream` for `key`; the caller guarantees the limits admit it.
    pub fn insert(&mut self, key: StackTcpFlowKey, stream: T) -> (previous: Option<T>)
        requires
            old(self).wf(),
            old(self).admits(key@),
        ensures
            final(self).wf(),
            final(self).keys().contains(key@),
            previous is Some <==> old(self).keys().contains(key@),
    {
        let ghost k = key@;
        match self.try_insert(key, stream) {
            Ok(previous) => {
                proof {
                    if !old(self).keys().contains(k) {
                        assert(self.keys().last() == k);
                    } else {
                        assert(self.keys().contains(k));
                    }
                }
                previous
            },
            Err(_) => None,
        }
    }

    /// Removes the flow `key`, returning its stream; pending bytes are dropped.
    pub fn remove(&mut self, key: &StackTcpFlowKey) -> (removed: Option<T>)
        requires
            old(self).wf(),
        ensures
            final(self).wf(),
            !final(self).keys().contains(key@),
            final(self).limits_spec() == old(self).limits_spec(),
            final(self).read_cursor_spec() == old(self).read_cursor_spec(),
            old(self).keys().contains(key@) ==> {
                let i = old(self).keys().index_of(key@);
                &&& removed == Some(old(self).streams()[i])
                &&& final(self).keys() == old(self).keys().remove(i)
                &&& final(self).streams() == old(self).streams().remove(i)
                &&& final(self).pending() == old(self).pending().remove(i)
                &&& final(self).queued() == old(self).queued().remove(i)
            },
            !old(self).keys().contains(key@) ==> removed is None && final(self).keys() == old(self).keys(),
    {
        match self.streams.find(key) {
            Some(i) => {
                let ghost old_keys = self.keys();
                proof {
                    lemma_index_of_unique(old_keys, key@, i as int);
                }
                let bridge = self.streams.remove_at(i);
                proof {
                    assert(self.streams() =~= old(self).streams().remove(i as int));
                    assert(self.pending() =~= old(self).pending().remove(i as int));
                    assert(self.queued() =~= old(self).queued().remove(i as int));
                    assert forall|s: Seq<char>|
                        sandbox_count(self.keys(), s) <= self.limits.max_streams_per_sandbox by {
                        lemma_sandbox_count_remove(old_keys, i as int, s);
                    }
                    assert forall|j: int|
                        0 <= j < self.pending().len() implies #[trigger] self.pending()[j].len()
                        <= self.limits.max_pending_sandbox_bytes by {
                        let j2 = if j < i { j } else { j + 1 };
                        assert(self.pending()[j] == old(self).pending()[j2]);
                    }
                    assert(!self.keys().contains(key@)) by {
                        if self.keys().contains(key@) {
                            let j = self.keys().index_of(key@);
                            let j2 = if j < i { j } else { j + 1 };
                            assert(old_keys[j2] == key@);
                        }
                    }
                }
                Some(bridge.stream)
            },
            None => None,
        }
    }
}

/// Total number of bytes in all buffers of `p`.
pub open spec fn total_len(p: Seq<Seq<u8>>) -> nat
    decreases p.len(),
{
    if p.len() == 0 {
        0
    } else {
        total_len(p.drop_last()) + p.last().len()
    }
}

pub proof fn lemma_total_len_update(p: Seq<Seq<u8>>, i: int, x: Seq<u8>)
    requires
        0 <= i < p.len(),
    ensures
        total_len(p.update(i, x)) + p[i].len() == total_len(p) + x.len(),
        total_len(p) >= p[i].len(),
    decreases p.len(),
{
    if i < p.len() - 1 {
        lemma_total_len_update(p.drop_last(), i, x);
        assert(p.update(i, x).drop_last() =~= p.drop_last().update(i, x));
    } else {
        assert(p.update(i, x).drop_last() =~= p.drop_last());
    }
}

/// The count in a table write result; an unknown flow counts zero.
pub open spec fn count_of(result: Result<Option<usize>, EgressError>) -> Result<usize, EgressError> {
    match result {
        Ok(Some(n)) => Ok(n),
        Ok(None) => Ok(0),
        Err(e) => Err(e),
    }
}

/// `q` is obtained from `p` by dropping a prefix of each buffer.
pub open spec fn each_suffix(p: Seq<Seq<u8>>, q: Seq<Seq<u8>>) -> bool {
    &&& q.len() == p.len()
    &&& forall|i: int|
        0 <= i < p.len() ==> #[trigger] q[i].len() <= p[i].len() && q[i] == p[i].skip(
            p[i].len() - q[i].len(),
        )
}

/// The writes `w1` extend `w0` by byte slices that, joined, are a prefix
/// of `pending`: a stream handed its own pending bytes, in order.
pub open spec fn hands_pending_prefix(w0: Seq<Seq<u8>>, w1: Seq<Seq<u8>>, pending: Seq<u8>) -> bool {
    let handed = w1.skip(w0.len() as int).flatten();
    &&& w0.len() <= w1.len()
    &&& w1.take(w0.len() as int) == w0
    &&& handed.len() <= pending.len()
    &&& pending.take(handed.len() as int) == handed
}

/// A stream handed nothing was handed a prefix of any buffer.
proof fn lemma_hands_nothing(w: Seq<Seq<u8>>, pending: Seq<u8>)
    ensures
        hands_pending_prefix(w, w, pending),
{
    assert(w.skip(w.len() as int) =~= Seq::<Seq<u8>>::empty());
    assert(w.take(w.len() as int) =~= w);
    assert(Seq::<Seq<u8>>::empty().flatten() =~= Seq::<u8>::empty());
    assert(pending.take(0) =~= Seq::<u8>::empty());
}

/// Writing the first `k` chunks of a buffer writes a prefix of its bytes.
proof fn lemma_chunks_prefix(w0: Seq<Seq<u8>>, chunks: Seq<Seq<u8>>, k: int)
    requires
        0 <= k <= chunks.len(),
    ensures
        hands_pending_prefix(w0, w0 + chunks.take(k), chunks.flatten()),
{
    let w1 = w0 + chunks.take(k);
    assert(w1.skip(w0.len() as int) =~= chunks.take(k));
    assert(w1.take(w0.len() as int) =~= w0);
    vstd::seq_lib::lemma_flatten_concat(chunks.take(k), chunks.skip(k));
    assert(chunks.take(k) + chunks.skip(k) =~= chunks);
    let h = chunks.take(k).flatten();
    assert(chunks.flatten().take(h.len() as int) =~= h);
}

impl<T: HostTcpStream> StackTcpBridgeTable<T> {
    /// Number of sandbox bytes buffered for `key` (zero for an unknown key).
    pub fn pending_sandbox_bytes(&self, key: &StackTcpFlowKey) -> (total: usize)
        requires
            self.wf(),
        ensures
            self.keys().contains(key@) ==> total == self.pending()[self.keys().index_of(
                key@,
            )].len(),
            !self.keys().contains(key@) ==> total == 0,
    {
        match self.streams.find(key) {
            Some(i) => {
                proof {
                    lemma_index_of_unique(self.keys(), key@, i as int);
                    assert(self.pending()[i as int].len() <= self.limits.max_pending_sandbox_bytes);
                    let b = self.streams.entries@[i as int].value;
                    if b.pending_chunks().len() == 0 {
                        assert(b.pending_chunks() =~= Seq::<Seq<u8>>::empty());
                        assert(b.pending_flat() =~= Seq::<u8>::empty());
                    }
                }
                self.streams.entries[i].value.pending_sandbox_bytes()
            },
            None => 0,
        }
    }

    /// Number of sandbox bytes buffered over all flows.
    pub fn total_pending_sandbox_bytes(&self) -> (total: usize)
        requires
            self.wf(),
            total_len(self.pending()) <= usize::MAX,
        ensures
            total == total_len(self.pending()),
    {
        let mut total: usize = 0;
        let mut i: usize = 0;
        proof {
            assert(self.pending().subrange(0, 0) =~= Seq::<Seq<u8>>::empty());
        }
        while i < self.streams.entries.len()
            invariant
                self.wf(),
                i <= self.pending().len(),
                self.pending().len() == self.streams.entries@.len(),
                total == total_len(self.pending().subrange(0, i as int)),
                total_len(self.pending()) <= usize::MAX,
            decreases self.pending().len() - i,
        {
            proof {
                let p = self.pending();
                assert(p.subrange(0, i + 1).drop_last() =~= p.subrange(0, i as int));
                lemma_total_len_prefix(p, i + 1);
                assert(p[i as int].len() <= self.limits.max_pending_sandbox_bytes);
            }
            let n = self.streams.entries[i].value.pending_sandbox_bytes();
            total = total + n;
            i = i + 1;
        }
        proof {
            assert(self.pending().subrange(0, i as int) =~= self.pending());
        }
        total
    }

    /// Writes stream bytes from the sandbox to the flow's host stream (see
    /// the per-flow buffering rule); `Ok(None)` for an unknown flow.
    pub fn write_from_sandbox(&mut self, event: &StackTcpData) -> (result: Result<
        Option<usize>,
        EgressError,
    >)
        requires
            old(self).wf(),
        ensures
            final(self).wf(),
            final(self).keys() == old(self).keys(),
            final(self).limits_spec() == old(self).limits_spec(),
            final(self).read_cursor_spec() == old(self).read_cursor_spec(),
            ({
                let k = (event.sandbox_id@, event.frontend, event.source, event.destination);
                if old(self).keys().contains(k) {
                    let i = old(self).keys().index_of(k);
                    let before = old(self).pending()[i];
                    let after = final(self).pending()[i];
                    &&& final(self).pending().len() == old(self).pending().len()
                    &&& forall|j: int|
                        0 <= j < old(self).pending().len() && j != i ==> #[trigger] final(self).pending()[j] == old(self).pending()[j]
                    &&& final(self).streams().len() == old(self).streams().len()
                    &&& forall|j: int|
                        0 <= j < old(self).streams().len() && j != i ==> #[trigger] final(self).streams()[j] == old(self).streams()[j]
                    &&& ({
                        let w0 = old(self).streams()[i].sandbox_writes();
                        let w1 = final(self).streams()[i].sandbox_writes();
                        &&& w1 == w0 || w1 == w0.push(event.bytes@)
                        &&& before.len() > 0 ==> w1 == w0
                        &&& (result matches Ok(Some(n)) && n > 0) ==> w1 == w0.push(event.bytes@)
                    })
                    &&& final(self).queued().len() == old(self).queued().len()
                    &&& forall|j: int|
                        0 <= j < old(self).queued().len() && j != i ==> #[trigger] final(self).queued()[j] == old(self).queued()[j]
                    &&& final(self).queued()[i] == (old(self).queued()[i] || after.len() > 0)
                    &&& old(self).queued()[i] ==> final(self).streams()[i].sandbox_writes()
                        == old(self).streams()[i].sandbox_writes() && final(self).streams()[i].write_results()
                        == old(self).streams()[i].write_results()
                    &&& !old(self).queued()[i] ==> ({
                        let got = final(self).streams()[i].write_results().last();
                        &&& final(self).streams()[i].sandbox_writes() == old(self).streams()[i].sandbox_writes().push(event.bytes@)
                        &&& final(self).streams()[i].write_results() == old(self).streams()[i].write_results().push(got)
                        &&& settles(
                            event.bytes@,
                            got,
                            old(self).limits_spec().max_pending_sandbox_bytes,
                            count_of(result),
                            after,
                        )
                    })
                    &&& before.len() > 0 ==> if before.len() + event.bytes@.len()
                        <= old(self).limits_spec().max_pending_sandbox_bytes {
                        result == Ok::<Option<usize>, EgressError>(Some(0)) && after == before
                            + event.bytes@
                    } else {
                        result == Err::<Option<usize>, EgressError>(
                            EgressError::LimitExceeded(BridgeLimit::PendingSandboxBytes),
                        ) && after == before
                    }
                    &&& match result {
                        Ok(Some(n)) => {
                            &&& n <= event.bytes@.len()
                            &&& before + event.bytes@ == event.bytes@.subrange(0, n as int) + after
                            &&& before.len() > 0 ==> n == 0
                        },
                        Ok(None) => false,
                        Err(_) => after == before,
                    }
                } else {
                    result == Ok::<Option<usize>, EgressError>(None) && final(self).pending()
                        == old(self).pending() && final(self).streams() == old(self).streams()
                }
            }),
    {
        let key = StackTcpFlowKey::from_tcp_data(event);
        match self.streams.find(&key) {
            Some(i) => {
                proof {
                    lemma_index_of_unique(self.keys(), key@, i as int);
                    assert(self.pending()[i as int].len() <= self.limits.max_pending_sandbox_bytes);
                    let b = self.streams.entries@[i as int].value;
                    if b.pending_chunks().len() == 0 {
                        assert(b.pending_chunks() =~= Seq::<Seq<u8>>::empty());
                        assert(b.pending_flat() =~= Seq::<u8>::empty());
                    }
                }
                let limits = self.limits;
                let result = self.streams.entries[i].value.write_from_sandbox(
                    event.bytes.as_slice(),
                    limits,
                );
                proof {
                    assert(self.keys() =~= old(self).keys());
                    assert forall|j: int|
                        0 <= j < self.pending().len() implies #[trigger] self.pending()[j].len()
                        <= self.limits.max_pending_sandbox_bytes by {
                        if j != i {
                            assert(self.pending()[j] == old(self).pending()[j]);
                        }
                    }
                    assert forall|j: int|
                        0 <= j < old(self).streams().len() && j != i implies #[trigger] self.streams()[j]
                        == old(self).streams()[j] by {
                        assert(self.streams.entries@[j] == old(self).streams.entries@[j]);
                    }
                    assert forall|j: int|
                        0 <= j < old(self).queued().len() && j != i implies #[trigger] self.queued()[j]
                        == old(self).queued()[j] by {
                        assert(self.streams.entries@[j] == old(self).streams.entries@[j]);
                    }
                }
                match result {
                    Ok(n) => Ok(Some(n)),
                    Err(e) => Err(e),
                }
            },
            None => Ok(None),
        }
    }

    /// Marks the first payload of the flow `key` as inspected: `Some(true)`
    /// the first time, `Some(false)` after that, `None` for an unknown flow.
    pub fn mark_first_payload_inspected(&mut self, key: &StackTcpFlowKey) -> (marked: Option<bool>)
        requires
            old(self).wf(),
        ensures
            final(self).wf(),
            final(self).keys() == old(self).keys(),
            final(self).streams() == old(self).streams(),
            final(self).pending() == old(self).pending(),
            final(self).queued() == old(self).queued(),
            final(self).limits_spec() == old(self).limits_spec(),
            final(self).read_cursor_spec() == old(self).read_cursor_spec(),
            old(self).keys().contains(key@) ==> {
                let i = old(self).keys().index_of(key@);
                &&& marked == Some(!old(self).inspected()[i])
                &&& final(self).inspected() == old(self).inspected().update(i, true)
            },
            !old(self).keys().contains(key@) ==> marked is None && final(self).inspected()
                == old(self).inspected(),
    {
        match self.streams.find(key) {
            Some(i) => {
                proof {
                    lemma_index_of_unique(self.keys(), key@, i as int);
                }
                let first = self.streams.entries[i].value.mark_inspected();
                proof {
                    assert(self.keys() =~= old(self).keys());
                    assert(self.streams() =~= old(self).streams());
                    assert(self.pending() =~= old(self).pending());
                    assert(self.queued() =~= old(self).queued());
                    assert(self.inspected() =~= old(self).inspected().update(i as int, true));
                }
                Some(first)
            },
            None => None,
        }
    }

    /// Flushes the pending buffers of all flows in table order; returns the
    /// number of bytes written to host streams.
    #[verifier::spinoff_prover]
    #[verifier::rlimit(40)]
    pub fn flush_pending_sandbox_writes(&mut self) -> (result: Result<usize, EgressError>)
        requires
            old(self).wf(),
            total_len(old(self).pending()) <= usize::MAX,
        ensures
            final(self).wf(),
            final(self).keys() == old(self).keys(),
            final(self).limits_spec() == old(self).limits_spec(),
            final(self).read_cursor_spec() == old(self).read_cursor_spec(),
            each_suffix(old(self).pending(), final(self).pending()),
            result matches Ok(total) ==> total + total_len(final(self).pending()) == total_len(
                old(self).pending(),
            ),
            final(self).streams().len() == old(self).streams().len(),
            forall|j: int|
                0 <= j < old(self).streams().len() ==> hands_pending_prefix(
                    old(self).streams()[j].sandbox_writes(),
                    #[trigger] final(self).streams()[j].sandbox_writes(),
                    old(self).pending()[j],
                ),
            result is Ok ==> forall|j: int|
                0 <= j < old(self).streams().len() && old(self).pending()[j].len() > 0
                    ==> old(self).streams()[j].sandbox_writes().len()
                    < #[trigger] final(self).streams()[j].sandbox_writes().len(),
            final(self).queued().len() == old(self).queued().len(),
            forall|j: int|
                0 <= j < old(self).queued().len() && !old(self).queued()[j]
                    ==> #[trigger] final(self).streams()[j] == old(self).streams()[j],
            (forall|j: int| 0 <= j < old(self).queued().len() ==> !#[trigger] old(self).queued()[j])
                ==> result == Ok::<usize, EgressError>(0),
            result is Ok ==> forall|j: int|
                0 <= j < old(self).streams().len() ==> flushed_as_accepted(
                    old(self).streams()[j],
                    #[trigger] final(self).streams()[j],
                    old(self).pending()[j],
                    final(self).pending()[j],
                ) && final(self).queued()[j] == (final(self).pending()[j].len() > 0),
    {
        let mut total: usize = 0;
        let mut i: usize = 0;
        let n = self.streams.entries.len();
        proof {
            assert forall|j: int| 0 <= j < self.pending().len() implies #[trigger] self.pending()[j].len()
                <= self.pending()[j].len() && self.pending()[j] == self.pending()[j].skip(
                self.pending()[j].len() - self.pending()[j].len(),
            ) by {
                assert(self.pending()[j].skip(0) =~= self.pending()[j]);
            }
        }
        while i < n
            invariant
                self.wf(),
                n == self.pending().len(),
                i <= n,
                self.keys() == old(self).keys(),
                self.limits == old(self).limits,
                self.read_cursor == old(self).read_cursor,
                each_suffix(old(self).pending(), self.pending()),
                forall|j: int| i <= j < n ==> #[trigger] self.pending()[j] == old(self).pending()[j],
                total + total_len(self.pending()) == total_len(old(self).pending()),
                total_len(old(self).pending()) <= usize::MAX,
                self.streams().len() == n,
                forall|j: int| i <= j < n ==> #[trigger] self.streams()[j] == old(self).streams()[j],
                forall|j: int|
                    0 <= j < i ==> hands_pending_prefix(
                        old(self).streams()[j].sandbox_writes(),
                        #[trigger] self.streams()[j].sandbox_writes(),
                        old(self).pending()[j],
                    ),
                forall|j: int|
                    0 <= j < i && old(self).pending()[j].len() > 0 ==> old(
                        self,
                    ).streams()[j].sandbox_writes().len()
                        < #[trigger] self.streams()[j].sandbox_writes().len(),
                self.queued().len() == n,
                old(self).queued().len() == n,
                forall|j: int| i <= j < n ==> #[trigger] self.queued()[j] == old(self).queued()[j],
                forall|j: int|
                    0 <= j < n && !old(self).queued()[j] ==> #[trigger] self.streams()[j] == old(
                        self,
                    ).streams()[j],
                (forall|j: int| 0 <= j < n ==> !#[trigger] old(self).queued()[j]) ==> total == 0,
                forall|j: int|
                    0 <= j < i ==> flushed_as_accepted(
                        old(self).streams()[j],
                        #[trigger] self.streams()[j],
                        old(self).pending()[j],
                        self.pending()[j],
                    ) && self.queued()[j] == (self.pending()[j].len() > 0),
            decreases n - i,
        {
            let ghost streams_before = self.streams();
            proof {
                let b = self.streams.entries@[i as int].value;
                if b.pending_chunks().len() == 0 {
                    assert(b.pending_chunks() =~= Seq::<Seq<u8>>::empty());
                    assert(b.pending_flat() =~= Seq::<u8>::empty());
                }
            }
            let ghost bridge_before = self.streams.entries@[i as int].value;
            let ghost before = self.pending();
            let ghost queued_before = self.queued();
            proof {
                lemma_total_len_update(before, i as int, before[i as int]);
                assert(before.update(i as int, before[i as int]) =~= before);
                assert(before[i as int].len() <= self.limits.max_pending_sandbox_bytes);
            }
            let flushed = self.streams.entries[i].value.flush_pending_sandbox_writes();
            proof {
                let bridge_after = self.streams.entries@[i as int].value;
                let w0 = bridge_before.stream.sandbox_writes();
                let w1 = bridge_after.stream.sandbox_writes();
                lemma_chunks_prefix(w0, bridge_before.pending_chunks(), w1.len() - w0.len());
                assert(streams_before[i as int] == bridge_before.stream);
                assert(bridge_before.stream == old(self).streams()[i as int]);
                assert(bridge_before.pending_flat() == before[i as int]);
                assert(bridge_before.pending_flat() == old(self).pending()[i as int]);
                assert(self.streams()[i as int] == bridge_after.stream);
                assert forall|j: int| 0 <= j < n && j != i implies #[trigger] self.streams()[j]
                    == streams_before[j] by {}
                assert forall|j: int| 0 <= j < n && j != i implies #[trigger] self.queued()[j]
                    == queued_before[j] by {}
                assert(self.queued()[i as int] == (bridge_after.pending_chunks().len() > 0));
                assert(queued_before[i as int] == (bridge_before.pending_chunks().len() > 0));
                assert(self.keys() =~= old(self).keys());
                assert(self.pending() =~= before.update(i as int, self.pending()[i as int]));
                lemma_total_len_update(before, i as int, self.pending()[i as int]);
                assert forall|j: int|
                    0 <= j < self.pending().len() implies #[trigger] self.pending()[j].len()
                    <= self.limits.max_pending_sandbox_bytes by {
                    if j != i {
                        assert(self.pending()[j] == before[j]);
                    }
                }
                let p = old(self).pending()[i as int];
                let q = self.pending()[i as int];
                assert(before[i as int] == p);
                assert(q.len() <= p.len() && q == p.skip(p.len() - q.len())) by {
                    if let Ok(t) = flushed {
                        assert(q.len() == p.len() - t);
                    }
                }
                assert(each_suffix(old(self).pending(), self.pending())) by {
                    assert forall|j: int| 0 <= j < old(self).pending().len() implies #[trigger] self.pending()[j].len()
                        <= old(self).pending()[j].len() && self.pending()[j] == old(self).pending()[j].skip(
                        old(self).pending()[j].len() - self.pending()[j].len(),
                    ) by {
                        if j != i {
                            assert(self.pending()[j] == before[j]);
                        }
                    }
                }
            }
            match flushed {
                Ok(written) => {
                    assert(total + written + total_len(self.pending()) == total_len(
                        old(self).pending(),
                    ));
                    proof {
                        let bridge_after = self.streams.entries@[i as int].value;
                        assert(flushed_as_accepted(
                            old(self).streams()[i as int],
                            self.streams()[i as int],
                            old(self).pending()[i as int],
                            self.pending()[i as int],
                        ));
                        assert(self.queued()[i as int] == (self.pending()[i as int].len() > 0));
                        assert forall|j: int| 0 <= j < i + 1 implies flushed_as_accepted(
                            old(self).streams()[j],
                            #[trigger] self.streams()[j],
                            old(self).pending()[j],
                            self.pending()[j],
                        ) && self.queued()[j] == (self.pending()[j].len() > 0) by {
                            if j < i {
                                assert(self.streams()[j] == streams_before[j]);
                                assert(self.pending()[j] == before[j]);
                                assert(self.queued()[j] == queued_before[j]);
                            }
                        }
                    }
                    total = total + written;
                    assert(forall|j: int|
                        0 <= j < i + 1 ==> flushed_as_accepted(
                            old(self).streams()[j],
                            #[trigger] self.streams()[j],
                            old(self).pending()[j],
                            self.pending()[j],
                        ) && self.queued()[j] == (self.pending()[j].len() > 0));
                },
                Err(e) => {
                    proof {
                        assert forall|j: int| 0 <= j < n implies hands_pending_prefix(
                            old(self).streams()[j].sandbox_writes(),
                            #[trigger] self.streams()[j].sandbox_writes(),
                            old(self).pending()[j],
                        ) by {
                            if j > i {
                                lemma_hands_nothing(
                                    old(self).streams()[j].sandbox_writes(),
                                    old(self).pending()[j],
                                );
                            }
                        }
                    }
                    return Err(e);
                },
            }
            i = i + 1;
        }
        Ok(total)
    }
}

pub proof fn lemma_total_len_prefix(p: Seq<Seq<u8>>, k: int)
    requires
        0 <= k <= p.len(),
    ensures
        total_len(p.subrange(0, k)) <= total_len(p),
    decreases p.len() - k,
{
    if k < p.len() {
        lemma_total_len_prefix(p, k + 1);
        assert(p.subrange(0, k + 1).drop_last() =~= p.subrange(0, k));
    } else {
        assert(p.subrange(0, k) =~= p);
    }
}

// ---------------------------------------------------------------------------
// Budgeted round-robin reads from host streams.

/// Flow keys of `keys`.
pub open spec fn key_views(keys: Seq<BridgeFlowKey>) -> Seq<FlowKeyView> {
    Seq::new(keys.len(), |i: int| keys[i]@)
}

/// Flow keys and bytes of `reads`.
pub open spec fn read_views(reads: Seq<(BridgeFlowKey, Vec<u8>)>) -> Seq<(FlowKeyView, Seq<u8>)> {
    Seq::new(reads.len(), |i: int| (reads[i].0@, reads[i].1@))
}

/// Flow keys of `reads`.
pub open spec fn read_keys(reads: Seq<(FlowKeyView, Seq<u8>)>) -> Seq<FlowKeyView> {
    Seq::new(reads.len(), |i: int| reads[i].0)
}

/// Bytes read for sandbox `sandbox` in `reads`.
pub open spec fn sandbox_bytes(reads: Seq<(FlowKeyView, Seq<u8>)>, sandbox: Seq<char>) -> nat
    decreases reads.len(),
{
    if reads.len() == 0 {
        0
    } else {
        sandbox_bytes(reads.drop_last(), sandbox) + (if reads.last().0.0 == sandbox {
            reads.last().1.len()
        } else {
            0nat
        })
    }
}

proof fn lemma_sandbox_bytes_prefix(reads: Seq<(FlowKeyView, Seq<u8>)>, k: int, sandbox: Seq<char>)
    requires
        0 <= k <= reads.len(),
    ensures
        sandbox_bytes(reads.subrange(0, k), sandbox) <= sandbox_bytes(reads, sandbox),
    decreases reads.len() - k,
{
    if k < reads.len() {
        lemma_sandbox_bytes_prefix(reads, k + 1, sandbox);
        assert(reads.subrange(0, k + 1).drop_last() =~= reads.subrange(0, k));
    } else {
        assert(reads.subrange(0, k) =~= reads);
    }
}

/// Number of keys in `keys` of sandbox `sandbox`.
fn count_keys_of(keys: &Vec<BridgeFlowKey>, sandbox: &SandboxId) -> (count: usize)
    ensures
        count == sandbox_count(key_views(keys@), sandbox@),
{
    let ghost all = key_views(keys@);
    let mut count: usize = 0;
    let mut i: usize = 0;
    while i < keys.len()
        invariant
            i <= keys@.len(),
            all == key_views(keys@),
            count == sandbox_count(all.subrange(0, i as int), sandbox@),
            count <= i,
        decreases keys@.len() - i,
    {
        proof {
            assert(all.subrange(0, i + 1).drop_last() =~= all.subrange(0, i as int));
        }
        if keys[i].sandbox_id.same_sandbox(sandbox) {
            count = count + 1;
        }
        i = i + 1;
    }
    assert(all.subrange(0, keys@.len() as int) =~= all);
    count
}

/// Bytes read for sandbox `sandbox` in `reads`, which stay within `bound`.
fn bytes_of(reads: &Vec<(BridgeFlowKey, Vec<u8>)>, sandbox: &SandboxId, Ghost(bound): Ghost<nat>) -> (total: usize)
    requires
        sandbox_bytes(read_views(reads@), sandbox@) <= bound,
        bound <= usize::MAX,
    ensures
        total == sandbox_bytes(read_views(reads@), sandbox@),
{
    let ghost all = read_views(reads@);
    let mut total: usize = 0;
    let mut i: usize = 0;
    while i < reads.len()
        invariant
            i <= reads@.len(),
            all == read_views(reads@),
            total == sandbox_bytes(all.subrange(0, i as int), sandbox@),
            sandbox_bytes(all, sandbox@) <= bound,
            bound <= usize::MAX,
        decreases reads@.len() - i,
    {
        proof {
            assert(all.subrange(0, i + 1).drop_last() =~= all.subrange(0, i as int));
            lemma_sandbox_bytes_prefix(all, i + 1, sandbox@);
        }
        if reads[i].0.sandbox_id.same_sandbox(sandbox) {
            total = total + reads[i].1.len();
        }
        i = i + 1;
    }
    assert(all.subrange(0, reads@.len() as int) =~= all);
    total
}

/// Distinct steps of less than a full turn reach distinct places.
proof fn lemma_ring_distinct(c: int, a: int, b: int, n: int)
    requires
        0 <= c < n,
        0 <= a < b < n,
    ensures
        (c + a) % n != (c + b) % n,
        (c % n + a) % n != (c % n + b) % n,
{
    assert(c % n == c) by (nonlinear_arith)
        requires
            0 <= c < n,
    ;
    if c + a < n {
        assert((c + a) % n == c + a) by (nonlinear_arith)
            requires
                0 <= c + a < n,
        ;
    } else {
        assert((c + a) % n == c + a - n) by (nonlinear_arith)
            requires
                n <= c + a < 2 * n,
        ;
    }
    if c + b < n {
        assert((c + b) % n == c + b) by (nonlinear_arith)
            requires
                0 <= c + b < n,
        ;
    } else {
        assert((c + b) % n == c + b - n) by (nonlinear_arith)
            requires
                n <= c + b < 2 * n,
        ;
    }
}

/// Position `offset` steps after `start` in a ring of `n` places.
fn ring_position(start: usize, offset: usize, n: usize) -> (pos: usize)
    requires
        start < n,
        offset <= n,
    ensures
        pos == (start + offset) % (n as int),
        pos < n,
{
    if offset < n - start {
        assert((start + offset) % (n as int) == start + offset) by (nonlinear_arith)
            requires
                0 <= start + offset < n,
        ;
        start + offset
    } else {
        assert((start + offset) % (n as int) == start + offset - n) by (nonlinear_arith)
            requires
                n <= start + offset < 2 * n,
        ;
        offset - (n - start)
    }
}

/// A sandbox that no key of `keys` belongs to has no keys counted.
proof fn lemma_sandbox_count_absent(keys: Seq<FlowKeyView>, sandbox: Seq<char>)
    requires
        forall|i: int| 0 <= i < keys.len() ==> (#[trigger] keys[i]).0 != sandbox,
    ensures
        sandbox_count(keys, sandbox) == 0,
    decreases keys.len(),
{
    if keys.len() > 0 {
        lemma_sandbox_count_absent(keys.drop_last(), sandbox);
        assert(keys.last() == keys[keys.len() - 1]);
    }
}

/// A sandbox with no counted keys has no key in `keys`.
proof fn lemma_sandbox_count_zero(keys: Seq<FlowKeyView>, sandbox: Seq<char>)
    requires
        sandbox_count(keys, sandbox) == 0,
    ensures
        forall|i: int| 0 <= i < keys.len() ==> (#[trigger] keys[i]).0 != sandbox,
    decreases keys.len(),
{
    if keys.len() > 0 {
        lemma_sandbox_count_zero(keys.drop_last(), sandbox);
        assert forall|i: int| 0 <= i < keys.len() implies (#[trigger] keys[i]).0 != sandbox by {
            if i < keys.len() - 1 {
                assert(keys[i] == keys.drop_last()[i]);
            }
        }
    }
}

/// No bytes were read for a sandbox none of whose flows was read.
proof fn lemma_sandbox_bytes_absent(reads: Seq<(FlowKeyView, Seq<u8>)>, sandbox: Seq<char>)
    requires
        sandbox_count(read_keys(reads), sandbox) == 0,
    ensures
        sandbox_bytes(reads, sandbox) == 0,
    decreases reads.len(),
{
    if reads.len() > 0 {
        lemma_sandbox_count_zero(read_keys(reads), sandbox);
        assert(read_keys(reads.drop_last()) =~= read_keys(reads).drop_last());
        assert(read_keys(reads)[reads.len() - 1] == reads.last().0);
        lemma_sandbox_count_absent(read_keys(reads.drop_last()), sandbox);
        lemma_sandbox_bytes_absent(reads.drop_last(), sandbox);
    }
}

proof fn lemma_choose_keeps_budget(
    chosen: Seq<FlowKeyView>,
    read: Seq<FlowKeyView>,
    k: FlowKeyView,
    cap: nat,
)
    requires
        sandbox_count(chosen, k.0) < cap,
        forall|s: Seq<char>| sandbox_count(chosen, s) <= cap,
        forall|s: Seq<char>| sandbox_count(read, s) <= sandbox_count(chosen, s),
    ensures
        forall|s: Seq<char>| sandbox_count(chosen.push(k), s) <= cap,
        forall|s: Seq<char>| sandbox_count(read, s) <= sandbox_count(chosen.push(k), s),
{
    assert forall|s: Seq<char>| sandbox_count(chosen.push(k), s) <= cap by {
        lemma_sandbox_count_push(chosen, k, s);
        assert(sandbox_count(chosen, s) <= cap);
    }
    assert forall|s: Seq<char>| sandbox_count(read, s) <= sandbox_count(chosen.push(k), s) by {
        lemma_sandbox_count_push(chosen, k, s);
        assert(sandbox_count(read, s) <= sandbox_count(chosen, s));
    }
}

proof fn lemma_read_keeps_budget(
    chosen_before: Seq<FlowKeyView>,
    reads: Seq<(FlowKeyView, Seq<u8>)>,
    k: FlowKeyView,
    b: Seq<u8>,
    max_bytes: nat,
)
    requires
        sandbox_bytes(reads, k.0) + b.len() <= max_bytes,
        forall|s: Seq<char>| sandbox_bytes(reads, s) <= max_bytes,
        forall|s: Seq<char>| sandbox_count(read_keys(reads), s) <= sandbox_count(chosen_before, s),
    ensures
        forall|s: Seq<char>| sandbox_bytes(reads.push((k, b)), s) <= max_bytes,
        forall|s: Seq<char>|
            sandbox_count(read_keys(reads).push(k), s) <= sandbox_count(chosen_before.push(k), s),
{
    assert forall|s: Seq<char>| sandbox_bytes(reads.push((k, b)), s) <= max_bytes by {
        assert(reads.push((k, b)).drop_last() =~= reads);
        assert(reads.push((k, b)).last() == (k, b));
        assert(sandbox_bytes(reads, s) <= max_bytes);
    }
    assert forall|s: Seq<char>|
        sandbox_count(read_keys(reads).push(k), s) <= sandbox_count(chosen_before.push(k), s) by {
        lemma_sandbox_count_push(read_keys(reads), k, s);
        lemma_sandbox_count_push(chosen_before, k, s);
        assert(sandbox_count(read_keys(reads), s) <= sandbox_count(chosen_before, s));
    }
}

/// One budgeted pass over the host streams: the bytes read (only nonempty
/// reads are kept), how many streams were read, and how many were looked at.
/// Whether `r1` is `r0` with at most one more read request, for at most
/// `max_bytes` bytes.
pub open spec fn at_most_one_read(r0: Seq<usize>, r1: Seq<usize>, max_bytes: int) -> bool {
    ||| r1 == r0
    ||| r1.len() == r0.len() + 1 && r1.take(r0.len() as int) == r0 && r1.last() <= max_bytes
}

/// The most bytes one read of a pass may ask for: the per-stream limit,
/// or the per-sandbox byte budget where that is smaller.
pub open spec fn read_limit(per_stream: usize, per_sandbox: usize) -> int {
    if per_stream < per_sandbox {
        per_stream as int
    } else {
        per_sandbox as int
    }
}

/// Whether stream `s1` is `s0` after at most one read request of at most
/// `max_bytes` bytes and no write.
pub open spec fn polled_at_most_once<T: HostTcpStream>(s0: T, s1: T, max_bytes: int) -> bool {
    &&& s1.sandbox_writes() == s0.sandbox_writes()
    &&& s1.write_results() == s0.write_results()
    &&& at_most_one_read(s0.host_reads(), s1.host_reads(), max_bytes)
    &&& s1.read_results().take(s0.read_results().len() as int) == s0.read_results()
    &&& s1.read_results().len() - s0.read_results().len() == s1.host_reads().len()
        - s0.host_reads().len()
}

/// The items `item(0)`, ..., `item(t - 1)` that are present, in order.
pub open spec fn collect_present<A>(item: spec_fn(int) -> Option<A>, t: int) -> Seq<A>
    decreases t,
{
    if t <= 0 {
        Seq::empty()
    } else {
        match item(t - 1) {
            Some(x) => collect_present(item, t - 1).push(x),
            None => collect_present(item, t - 1),
        }
    }
}

/// Collecting items that agree below `t` gives the same sequence.
pub proof fn lemma_collect_same<A>(f: spec_fn(int) -> Option<A>, g: spec_fn(int) -> Option<A>, t: int)
    requires
        forall|u: int| 0 <= u < t ==> #[trigger] f(u) == g(u),
    ensures
        collect_present(f, t) == collect_present(g, t),
    decreases t,
{
    if t > 0 {
        lemma_collect_same(f, g, t - 1);
        assert(f(t - 1) == g(t - 1));
    }
}

/// What the `u`-th stream visited by a TCP read pass handed back: its key
/// and bytes, when it was asked and its read returned some bytes.
pub open spec fn tcp_read_item<T: HostTcpStream>(
    keys: Seq<FlowKeyView>,
    s0: Seq<T>,
    s1: Seq<T>,
    cursor: int,
    n: int,
) -> spec_fn(int) -> Option<(FlowKeyView, Seq<u8>)> {
    |u: int|
        if polled_at(s0, s1, cursor, u, n) {
            match s1[ring_at(cursor, u, n)].read_results().last() {
                Ok(b) => if b@.len() > 0 {
                    Some((keys[ring_at(cursor, u, n)], b@))
                } else {
                    None
                },
                Err(_) => None,
            }
        } else {
            None
        }
}

/// The key of the `u`-th stream visited by a TCP read pass, when it was
/// asked for bytes.
pub open spec fn tcp_polled_key<T: HostTcpStream>(
    keys: Seq<FlowKeyView>,
    s0: Seq<T>,
    s1: Seq<T>,
    cursor: int,
    n: int,
) -> spec_fn(int) -> Option<FlowKeyView> {
    |u: int|
        if polled_at(s0, s1, cursor, u, n) {
            Some(keys[ring_at(cursor, u, n)])
        } else {
            None
        }
}

/// Whether flow `f1` is `f0` after at most one receive request of at most
/// `max_bytes` bytes.
pub open spec fn received_at_most_once<U: HostUdpFlow>(f0: U, f1: U, max_bytes: int) -> bool {
    at_most_one_read(f0.recv_requests(), f1.recv_requests(), max_bytes)
}

/// Whether the stream that a pass starting at `cursor` visits `t`-th, of
/// `n`, was asked for bytes between `s0` and `s1`.
pub open spec fn polled_at<T: HostTcpStream>(s0: Seq<T>, s1: Seq<T>, cursor: int, t: int, n: int) -> bool {
    s1[ring_at(cursor, t, n)].host_reads().len() > s0[ring_at(cursor, t, n)].host_reads().len()
}

/// Whether no stream visited before the `t`-th one and asked for bytes
/// belongs to the sandbox of the `t`-th one.
pub open spec fn first_of_sandbox<T: HostTcpStream>(
    keys: Seq<FlowKeyView>,
    s0: Seq<T>,
    s1: Seq<T>,
    cursor: int,
    t: int,
    n: int,
) -> bool {
    forall|u: int|
        0 <= u < t && #[trigger] polled_at(s0, s1, cursor, u, n) ==> keys[ring_at(cursor, u, n)].0
            != keys[ring_at(cursor, t, n)].0
}

/// Streams left unchanged at the places visited before the `t`-th keep
/// which of those were asked for bytes, and so whether the `t`-th is the
/// first of its sandbox.
proof fn lemma_polled_frame<T: HostTcpStream>(
    keys: Seq<FlowKeyView>,
    s0: Seq<T>,
    s1: Seq<T>,
    s2: Seq<T>,
    cursor: int,
    t: int,
    n: int,
)
    requires
        forall|u: int| 0 <= u < t ==> #[trigger] s2[ring_at(cursor, u, n)] == s1[ring_at(cursor, u, n)],
    ensures
        forall|u: int|
            0 <= u < t ==> #[trigger] polled_at(s0, s2, cursor, u, n) == polled_at(s0, s1, cursor, u, n),
        first_of_sandbox(keys, s0, s2, cursor, t, n) == first_of_sandbox(keys, s0, s1, cursor, t, n),
{
    assert forall|u: int| 0 <= u < t implies #[trigger] polled_at(s0, s2, cursor, u, n) == polled_at(
        s0,
        s1,
        cursor,
        u,
        n,
    ) by {
        assert(s2[ring_at(cursor, u, n)] == s1[ring_at(cursor, u, n)]);
    }
    if first_of_sandbox(keys, s0, s2, cursor, t, n) {
        assert forall|u: int| 0 <= u < t && #[trigger] polled_at(s0, s1, cursor, u, n) implies keys[ring_at(
            cursor,
            u,
            n,
        )].0 != keys[ring_at(cursor, t, n)].0 by {
            assert(s2[ring_at(cursor, u, n)] == s1[ring_at(cursor, u, n)]);
            assert(polled_at(s0, s2, cursor, u, n));
        }
    }
    if first_of_sandbox(keys, s0, s1, cursor, t, n) {
        assert forall|u: int| 0 <= u < t && #[trigger] polled_at(s0, s2, cursor, u, n) implies keys[ring_at(
            cursor,
            u,
            n,
        )].0 != keys[ring_at(cursor, t, n)].0 by {
            assert(s2[ring_at(cursor, u, n)] == s1[ring_at(cursor, u, n)]);
            assert(polled_at(s0, s1, cursor, u, n));
        }
    }
}

/// Whether the flow that a pass starting at `cursor` visits `t`-th, of
/// `n`, was asked for a reply between `f0` and `f1`.
pub open spec fn received_at<U: HostUdpFlow>(f0: Seq<U>, f1: Seq<U>, cursor: int, t: int, n: int) -> bool {
    f1[ring_at(cursor, t, n)].recv_requests().len() > f0[ring_at(cursor, t, n)].recv_requests().len()
}

/// Whether no flow visited before the `t`-th one and asked for a reply
/// belongs to the sandbox of the `t`-th one.
pub open spec fn first_flow_of_sandbox<U: HostUdpFlow>(
    keys: Seq<FlowKeyView>,
    f0: Seq<U>,
    f1: Seq<U>,
    cursor: int,
    t: int,
    n: int,
) -> bool {
    forall|u: int|
        0 <= u < t && #[trigger] received_at(f0, f1, cursor, u, n) ==> keys[ring_at(cursor, u, n)].0
            != keys[ring_at(cursor, t, n)].0
}

/// Whether the flow that a pass starting at `cursor` visits `t`-th, of
/// `n`, was asked for a reply, as the pass's result shows it: its read
/// failed and it was removed, or it is still bridged and was asked once
/// more than before.
pub open spec fn flow_polled<U: HostUdpFlow>(
    keys0: Seq<FlowKeyView>,
    f0: Seq<U>,
    keys1: Seq<FlowKeyView>,
    f1: Seq<U>,
    failed: Seq<FlowKeyView>,
    cursor: int,
    t: int,
    n: int,
) -> bool {
    let r = ring_at(cursor, t, n);
    ||| failed.contains(keys0[r])
    ||| keys1.contains(keys0[r]) && f1[keys1.index_of(keys0[r])].recv_requests().len()
        > f0[r].recv_requests().len()
}

/// Whether flow `f1` is `f0` asked once more for a reply, and the reply
/// came back within the limit it was asked for.
pub open spec fn recv_ok<U: HostUdpFlow>(f0: U, f1: U) -> bool {
    &&& f1.recv_requests().len() > f0.recv_requests().len()
    &&& f1.recv_results().last() matches Ok(b) && b@.len() <= f1.recv_requests().last()
}

/// The reply flow `f1` handed back since `f0`: the bytes of a receive that
/// came back within its limit and was not empty.
pub open spec fn udp_reply_of<U: HostUdpFlow>(f0: U, f1: U) -> Option<Seq<u8>> {
    if recv_ok(f0, f1) {
        match f1.recv_results().last() {
            Ok(b) => if b@.len() > 0 {
                Some(b@)
            } else {
                None
            },
            Err(_) => None,
        }
    } else {
        None
    }
}

/// What the `u`-th flow visited by a UDP read pass handed back, with the
/// flows still aligned with `keys`.
pub open spec fn udp_mid_reply_item<U: HostUdpFlow>(
    keys: Seq<FlowKeyView>,
    f0: Seq<U>,
    f1: Seq<U>,
    cursor: int,
    n: int,
) -> spec_fn(int) -> Option<(FlowKeyView, Seq<u8>)> {
    |u: int|
        match udp_reply_of(f0[ring_at(cursor, u, n)], f1[ring_at(cursor, u, n)]) {
            Some(b) => Some((keys[ring_at(cursor, u, n)], b)),
            None => None,
        }
}

/// What the `u`-th flow visited by a UDP read pass handed back, as the
/// table after the pass shows it (a removed flow handed nothing back).
pub open spec fn udp_reply_item<U: HostUdpFlow>(
    keys0: Seq<FlowKeyView>,
    f0: Seq<U>,
    keys1: Seq<FlowKeyView>,
    f1: Seq<U>,
    cursor: int,
    n: int,
) -> spec_fn(int) -> Option<(FlowKeyView, Seq<u8>)> {
    |u: int|
        if keys1.contains(keys0[ring_at(cursor, u, n)]) {
            match udp_reply_of(
                f0[ring_at(cursor, u, n)],
                f1[keys1.index_of(keys0[ring_at(cursor, u, n)])],
            ) {
                Some(b) => Some((keys0[ring_at(cursor, u, n)], b)),
                None => None,
            }
        } else {
            None
        }
}

/// The key of the `u`-th flow visited by a UDP read pass, when it was
/// asked for a reply, with the flows still aligned with `keys`.
pub open spec fn udp_mid_polled_key<U: HostUdpFlow>(
    keys: Seq<FlowKeyView>,
    f0: Seq<U>,
    f1: Seq<U>,
    cursor: int,
    n: int,
) -> spec_fn(int) -> Option<FlowKeyView> {
    |u: int|
        if received_at(f0, f1, cursor, u, n) {
            Some(keys[ring_at(cursor, u, n)])
        } else {
            None
        }
}

/// The key of the `u`-th flow visited by a UDP read pass, when it was
/// asked for a reply, as the pass's result shows it.
pub open spec fn udp_polled_key<U: HostUdpFlow>(
    keys0: Seq<FlowKeyView>,
    f0: Seq<U>,
    keys1: Seq<FlowKeyView>,
    f1: Seq<U>,
    failed: Seq<FlowKeyView>,
    cursor: int,
    n: int,
) -> spec_fn(int) -> Option<FlowKeyView> {
    |u: int|
        if flow_polled(keys0, f0, keys1, f1, failed, cursor, u, n) {
            Some(keys0[ring_at(cursor, u, n)])
        } else {
            None
        }
}

/// Whether no flow visited before the `t`-th one and asked for a reply
/// belongs to the sandbox of the `t`-th one, as the pass's result shows it.
pub open spec fn first_polled_of_sandbox<U: HostUdpFlow>(
    keys0: Seq<FlowKeyView>,
    f0: Seq<U>,
    keys1: Seq<FlowKeyView>,
    f1: Seq<U>,
    failed: Seq<FlowKeyView>,
    cursor: int,
    t: int,
    n: int,
) -> bool {
    forall|u: int|
        0 <= u < t && #[trigger] flow_polled(keys0, f0, keys1, f1, failed, cursor, u, n)
            ==> keys0[ring_at(cursor, u, n)].0 != keys0[ring_at(cursor, t, n)].0
}

/// Flows left unchanged at the places visited before the `t`-th keep which
/// of those were asked for a reply, and so whether the `t`-th is the first
/// of its sandbox.
proof fn lemma_received_frame<U: HostUdpFlow>(
    keys: Seq<FlowKeyView>,
    f0: Seq<U>,
    f1: Seq<U>,
    f2: Seq<U>,
    cursor: int,
    t: int,
    n: int,
)
    requires
        forall|u: int| 0 <= u < t ==> #[trigger] f2[ring_at(cursor, u, n)] == f1[ring_at(cursor, u, n)],
    ensures
        forall|u: int|
            0 <= u < t ==> #[trigger] received_at(f0, f2, cursor, u, n) == received_at(f0, f1, cursor, u, n),
        first_flow_of_sandbox(keys, f0, f2, cursor, t, n) == first_flow_of_sandbox(keys, f0, f1, cursor, t, n),
{
    assert forall|u: int| 0 <= u < t implies #[trigger] received_at(f0, f2, cursor, u, n) == received_at(
        f0,
        f1,
        cursor,
        u,
        n,
    ) by {
        assert(f2[ring_at(cursor, u, n)] == f1[ring_at(cursor, u, n)]);
    }
    if first_flow_of_sandbox(keys, f0, f2, cursor, t, n) {
        assert forall|u: int| 0 <= u < t && #[trigger] received_at(f0, f1, cursor, u, n) implies keys[ring_at(
            cursor,
            u,
            n,
        )].0 != keys[ring_at(cursor, t, n)].0 by {
            assert(f2[ring_at(cursor, u, n)] == f1[ring_at(cursor, u, n)]);
            assert(received_at(f0, f2, cursor, u, n));
        }
    }
    if first_flow_of_sandbox(keys, f0, f1, cursor, t, n) {
        assert forall|u: int| 0 <= u < t && #[trigger] received_at(f0, f2, cursor, u, n) implies keys[ring_at(
            cursor,
            u,
            n,
        )].0 != keys[ring_at(cursor, t, n)].0 by {
            assert(f2[ring_at(cursor, u, n)] == f1[ring_at(cursor, u, n)]);
            assert(received_at(f0, f1, cursor, u, n));
        }
    }
}

/// Place `t` of the ring of `n` places that starts at `cursor`.
pub open spec fn ring_at(cursor: int, t: int, n: int) -> int {
    (cursor % n + t) % n
}

pub struct BridgeReadPass {
    pub reads: Vec<(StackTcpFlowKey, Vec<u8>)>,
    pub selected: usize,
    pub visited: usize,
}

impl<T: HostTcpStream> StackTcpBridgeTable<T> {
    /// Reads host bytes round-robin, starting at the read cursor: each
    /// stream is looked at once at most; a stream is skipped when its
    /// sandbox already had `max_streams_per_sandbox` streams read or
    /// `max_bytes_per_sandbox` bytes in this pass; each read asks for at most
    /// `max_bytes_per_stream` bytes and at most what the sandbox's byte
    /// budget has left; the pass ends after `max_streams` reads. The cursor
    /// then points just past the last stream looked at. A failed read (a
    /// host that returns more than was asked for counts as one) ends the
    /// pass with its error and leaves the cursor where it was.
    pub fn read_to_sandbox_with_budget(
        &mut self,
        max_bytes_per_stream: usize,
        max_streams: usize,
        max_streams_per_sandbox: usize,
        max_bytes_per_sandbox: usize,
    ) -> (result: Result<BridgeReadPass, EgressError>)
        requires
            old(self).wf(),
        ensures
            final(self).wf(),
            final(self).keys() == old(self).keys(),
            final(self).pending() == old(self).pending(),
            final(self).limits_spec() == old(self).limits_spec(),
            result is Err ==> final(self).read_cursor_spec() == old(self).read_cursor_spec(),
            old(self).keys().len() == 0 || max_streams == 0 || max_streams_per_sandbox == 0
                || max_bytes_per_sandbox == 0 ==> result is Ok,
            result matches Ok(pass) ==> {
                let n = old(self).keys().len();
                let reads = read_views(pass.reads@);
                &&& pass.visited <= n
                &&& pass.selected <= pass.visited
                &&& pass.selected <= max_streams
                &&& pass.visited == n || pass.selected == max_streams
                &&& pass.reads@.len() <= pass.selected
                &&& final(self).read_cursor_spec() == (if n == 0 {
                    old(self).read_cursor_spec() as int
                } else {
                    (old(self).read_cursor_spec() as int % (n as int) + pass.visited) % (n as int)
                })
                &&& forall|i: int|
                    0 <= i < reads.len() ==> 1 <= (#[trigger] reads[i]).1.len()
                        <= max_bytes_per_stream && old(self).keys().contains(reads[i].0)
                &&& forall|s: Seq<char>| sandbox_count(read_keys(reads), s) <= max_streams_per_sandbox
                &&& forall|s: Seq<char>| sandbox_bytes(reads, s) <= max_bytes_per_sandbox
                &&& forall|t: int|
                    pass.visited <= t < n ==> final(self).streams()[ring_at(
                        old(self).read_cursor_spec() as int,
                        t,
                        n as int,
                    )] == old(self).streams()[ring_at(old(self).read_cursor_spec() as int, t, n as int)]
                &&& 0 < pass.visited < n ==> ({
                    let last = ring_at(old(self).read_cursor_spec() as int, pass.visited - 1, n as int);
                    final(self).streams()[last].host_reads().len() > old(self).streams()[last].host_reads().len()
                })
                &&& read_views(pass.reads@) == collect_present(
                    tcp_read_item(
                        old(self).keys(),
                        old(self).streams(),
                        final(self).streams(),
                        old(self).read_cursor_spec() as int,
                        n as int,
                    ),
                    pass.visited as int,
                )
                &&& ({
                    let polled = collect_present(
                        tcp_polled_key(
                            old(self).keys(),
                            old(self).streams(),
                            final(self).streams(),
                            old(self).read_cursor_spec() as int,
                            n as int,
                        ),
                        pass.visited as int,
                    );
                    &&& polled.len() == pass.selected
                    &&& forall|s: Seq<char>| sandbox_count(polled, s) <= max_streams_per_sandbox
                })
                &&& forall|t: int|
                    0 <= t < pass.visited && #[trigger] polled_at(
                        old(self).streams(),
                        final(self).streams(),
                        old(self).read_cursor_spec() as int,
                        t,
                        n as int,
                    ) ==> (final(self).streams()[ring_at(
                        old(self).read_cursor_spec() as int,
                        t,
                        n as int,
                    )].read_results().last() matches Ok(b) && b@.len() <= max_bytes_per_stream)
                &&& max_streams_per_sandbox > 0 && max_bytes_per_sandbox > 0 ==> forall|t: int|
                    0 <= t < pass.visited && #[trigger] first_of_sandbox(
                        old(self).keys(),
                        old(self).streams(),
                        final(self).streams(),
                        old(self).read_cursor_spec() as int,
                        t,
                        n as int,
                    ) ==> polled_at(
                        old(self).streams(),
                        final(self).streams(),
                        old(self).read_cursor_spec() as int,
                        t,
                        n as int,
                    ) && final(self).streams()[ring_at(
                        old(self).read_cursor_spec() as int,
                        t,
                        n as int,
                    )].host_reads().last() == read_limit(max_bytes_per_stream, max_bytes_per_sandbox)
            },
            final(self).streams().len() == old(self).streams().len(),
            forall|j: int|
                0 <= j < old(self).streams().len() ==> polled_at_most_once(
                    old(self).streams()[j],
                    #[trigger] final(self).streams()[j],
                    read_limit(max_bytes_per_stream, max_bytes_per_sandbox),
                ),
    {
        let n = self.streams.entries.len();
        let start: usize = if n == 0 {
            0
        } else {
            self.read_cursor % n
        };
        let mut reads: Vec<(StackTcpFlowKey, Vec<u8>)> = Vec::new();
        proof {
            assert forall|j: int| 0 <= j < self.streams().len() implies #[trigger] self.streams()[j].read_results().take(
                self.streams()[j].read_results().len() as int,
            ) == self.streams()[j].read_results() by {
                assert(self.streams()[j].read_results().take(
                    self.streams()[j].read_results().len() as int,
                ) =~= self.streams()[j].read_results());
            }
        }
        let mut chosen: Vec<StackTcpFlowKey> = Vec::new();
        let mut selected: usize = 0;
        let mut visited: usize = 0;
        let ghost keys0 = self.keys();
        let ghost pending0 = self.pending();
        let ghost mut visits: Seq<int> = Seq::empty();
        assert(read_keys(read_views(reads@)) =~= Seq::<FlowKeyView>::empty());
        assert(key_views(chosen@) =~= Seq::<FlowKeyView>::empty());
        while visited < n && selected < max_streams
            invariant
                self.wf(),
                keys0 == old(self).keys(),
                pending0 == old(self).pending(),
                n == keys0.len(),
                n == 0 ==> start == 0,
                n > 0 ==> start < n,
                self.keys() == keys0,
                self.pending() == pending0,
                self.limits == old(self).limits,
                self.read_cursor == old(self).read_cursor,
                start == (if n == 0 {
                    0
                } else {
                    old(self).read_cursor % n
                }),
                visited <= n,
                selected <= visited,
                selected <= max_streams,
                chosen@.len() == selected,
                reads@.len() <= selected,
                forall|i: int|
                    0 <= i < read_views(reads@).len() ==> 1 <= (#[trigger] read_views(reads@)[i]).1.len()
                        <= max_bytes_per_stream && keys0.contains(read_views(reads@)[i].0),
                forall|s: Seq<char>| sandbox_count(key_views(chosen@), s) <= max_streams_per_sandbox,
                forall|s: Seq<char>|
                    sandbox_count(read_keys(read_views(reads@)), s) <= sandbox_count(
                        key_views(chosen@),
                        s,
                    ),
                forall|s: Seq<char>| sandbox_bytes(read_views(reads@), s) <= max_bytes_per_sandbox,
                self.streams().len() == n,
                old(self).streams().len() == n,
                forall|j: int|
                    0 <= j < n ==> polled_at_most_once(
                        old(self).streams()[j],
                        #[trigger] self.streams()[j],
                        read_limit(max_bytes_per_stream, max_bytes_per_sandbox),
                    ),
                forall|t: int|
                    visited <= t < n ==> self.streams()[ring_at(
                        old(self).read_cursor as int,
                        t,
                        n as int,
                    )] == old(self).streams()[ring_at(old(self).read_cursor as int, t, n as int)],
                visited > 0 && selected == max_streams ==> ({
                    let last = ring_at(old(self).read_cursor as int, visited - 1, n as int);
                    self.streams()[last].host_reads().len() > old(self).streams()[last].host_reads().len()
                }),
                visits.len() == chosen@.len(),
                forall|i: int|
                    0 <= i < visits.len() ==> 0 <= #[trigger] visits[i] < visited && key_views(chosen@)[i]
                        == keys0[ring_at(old(self).read_cursor as int, visits[i], n as int)] && polled_at(
                        old(self).streams(),
                        self.streams(),
                        old(self).read_cursor as int,
                        visits[i],
                        n as int,
                    ),
                max_streams_per_sandbox > 0 && max_bytes_per_sandbox > 0 ==> forall|t: int|
                    0 <= t < visited && #[trigger] first_of_sandbox(
                        keys0,
                        old(self).streams(),
                        self.streams(),
                        old(self).read_cursor as int,
                        t,
                        n as int,
                    ) ==> polled_at(
                        old(self).streams(),
                        self.streams(),
                        old(self).read_cursor as int,
                        t,
                        n as int,
                    ) && self.streams()[ring_at(
                        old(self).read_cursor as int,
                        t,
                        n as int,
                    )].host_reads().last() == read_limit(max_bytes_per_stream, max_bytes_per_sandbox),
                read_views(reads@) == collect_present(
                    tcp_read_item(keys0, old(self).streams(), self.streams(), old(self).read_cursor as int, n as int),
                    visited as int,
                ),
                key_views(chosen@) == collect_present(
                    tcp_polled_key(keys0, old(self).streams(), self.streams(), old(self).read_cursor as int, n as int),
                    visited as int,
                ),
                forall|t: int|
                    0 <= t < visited && #[trigger] polled_at(
                        old(self).streams(),
                        self.streams(),
                        old(self).read_cursor as int,
                        t,
                        n as int,
                    ) ==> (self.streams()[ring_at(
                        old(self).read_cursor as int,
                        t,
                        n as int,
                    )].read_results().last() matches Ok(b) && b@.len() <= max_bytes_per_stream),
            decreases n - visited,
        {
            let ghost visit = visited as int;
            let ghost prev = self.streams();
            let ghost visits_start = visits;
            let ghost chosen_start = key_views(chosen@);
            let ghost reads_start = read_views(reads@);
            let pos = ring_position(start, visited, n);
            proof {
                assert(pos == ring_at(old(self).read_cursor as int, visit, n as int));
                assert forall|t: int| visit < t < n implies ring_at(
                    old(self).read_cursor as int,
                    t,
                    n as int,
                ) != pos by {
                    lemma_ring_distinct(start as int, visit, t, n as int);
                }
            }
            visited = visited + 1;
            let key = self.streams.entries[pos].key.duplicate();
            proof {
                assert(keys0[pos as int] == key@);
            }
            let ghost first = first_of_sandbox(
                keys0,
                old(self).streams(),
                prev,
                old(self).read_cursor as int,
                visit,
                n as int,
            );
            let streams_so_far = count_keys_of(&chosen, &key.sandbox_id);
            proof {
                if first {
                    assert forall|i: int| 0 <= i < chosen_start.len() implies (
                    #[trigger] chosen_start[i]).0 != key@.0 by {
                        assert(0 <= visits_start[i] < visit);
                        assert(polled_at(
                            old(self).streams(),
                            prev,
                            old(self).read_cursor as int,
                            visits_start[i],
                            n as int,
                        ));
                    }
                    lemma_sandbox_count_absent(chosen_start, key@.0);
                    lemma_sandbox_bytes_absent(reads_start, key@.0);
                }
            }
            if streams_so_far < max_streams_per_sandbox {
                let bytes_so_far = bytes_of(&reads, &key.sandbox_id, Ghost(max_bytes_per_sandbox as nat));
                let remaining = max_bytes_per_sandbox - bytes_so_far;
                if remaining > 0 {
                    let ghost chosen_before = key_views(chosen@);
                    let ghost reads_before = read_views(reads@);
                    chosen.push(key.duplicate());
                    selected = selected + 1;
                    proof {
                        visits = visits.push(visit);
                    }
                    proof {
                        assert(key_views(chosen@) =~= chosen_before.push(key@));
                        lemma_choose_keeps_budget(
                            chosen_before,
                            read_keys(reads_before),
                            key@,
                            max_streams_per_sandbox as nat,
                        );
                    }
                    let cap = if max_bytes_per_stream < remaining {
                        max_bytes_per_stream
                    } else {
                        remaining
                    };
                    let ghost streams_before = self.streams();
                    let raw = self.streams.entries[pos].value.stream.read_to_sandbox(cap);
                    let ghost raw_v = raw;
                    let got = checked_read(raw, cap);
                    proof {
                        assert(self.keys() =~= keys0);
                        assert(self.pending() =~= pending0);
                        assert(streams_before[pos as int] == old(self).streams()[pos as int]);
                        assert forall|j: int| 0 <= j < n && j != pos implies #[trigger] self.streams()[j]
                            == streams_before[j] by {}
                        let r0 = old(self).streams()[pos as int].host_reads();
                        let r1 = self.streams()[pos as int].host_reads();
                        assert(r1 == r0.push(cap));
                        assert(r1.take(r0.len() as int) =~= r0);
                        let q0 = old(self).streams()[pos as int].read_results();
                        let q1 = self.streams()[pos as int].read_results();
                        assert(q1.take(q0.len() as int) =~= q0);
                        let capmax = read_limit(max_bytes_per_stream, max_bytes_per_sandbox);
                        assert(cap <= capmax);
                        assert(at_most_one_read(r0, r1, capmax));
                        assert forall|j: int| 0 <= j < n implies polled_at_most_once(
                            old(self).streams()[j],
                            #[trigger] self.streams()[j],
                            capmax,
                        ) by {
                            if j != pos {
                                assert(self.streams()[j] == streams_before[j]);
                            }
                        }
                    }
                    match got {
                        Err(e) => {
                            return Err(e);
                        },
                        Ok(bytes) => {
                            proof {
                                assert(raw_v == Ok::<Vec<u8>, EgressError>(bytes));
                            }
                            if bytes.len() > 0 {
                                let ghost b = bytes@;
                                reads.push((key, bytes));
                                proof {
                                    let rv = read_views(reads@);
                                    assert(rv =~= reads_before.push((key@, b)));
                                    assert(read_keys(rv) =~= read_keys(reads_before).push(key@));
                                    lemma_read_keeps_budget(
                                        chosen_before,
                                        reads_before,
                                        key@,
                                        b,
                                        max_bytes_per_sandbox as nat,
                                    );
                                    assert forall|i: int| 0 <= i < rv.len() implies 1 <= (
                                    #[trigger] rv[i]).1.len() <= max_bytes_per_stream
                                        && keys0.contains(rv[i].0) by {
                                        if i < reads_before.len() {
                                            assert(rv[i] == reads_before[i]);
                                        } else {
                                            assert(keys0[pos as int] == key@);
                                        }
                                    }
                                }
                            }
                        },
                    }
                }
            }
            proof {
                let c = old(self).read_cursor as int;
                let nn = n as int;
                assert forall|u: int| 0 <= u < visit implies #[trigger] self.streams()[ring_at(c, u, nn)]
                    == prev[ring_at(c, u, nn)] by {
                    lemma_ring_distinct(start as int, u, visit, nn);
                }
                lemma_polled_frame(keys0, old(self).streams(), prev, self.streams(), c, visit, nn);
                let fi = tcp_read_item(keys0, old(self).streams(), self.streams(), c, nn);
                let fp = tcp_read_item(keys0, old(self).streams(), prev, c, nn);
                let ki = tcp_polled_key(keys0, old(self).streams(), self.streams(), c, nn);
                let kp = tcp_polled_key(keys0, old(self).streams(), prev, c, nn);
                assert forall|u: int| 0 <= u < visit implies #[trigger] fi(u) == fp(u) && ki(u) == kp(u) by {
                    assert(self.streams()[ring_at(c, u, nn)] == prev[ring_at(c, u, nn)]);
                    assert(polled_at(old(self).streams(), self.streams(), c, u, nn) == polled_at(
                        old(self).streams(),
                        prev,
                        c,
                        u,
                        nn,
                    ));
                }
                assert forall|u: int| 0 <= u < visit implies #[trigger] fi(u) == fp(u) by {}
                assert forall|u: int| 0 <= u < visit implies #[trigger] ki(u) == kp(u) by {}
                lemma_collect_same(fi, fp, visit);
                lemma_collect_same(ki, kp, visit);
                assert(prev[pos as int] == old(self).streams()[pos as int]);
                assert forall|t: int|
                    0 <= t < visited && #[trigger] polled_at(old(self).streams(), self.streams(), c, t, nn)
                        implies (self.streams()[ring_at(c, t, nn)].read_results().last() matches Ok(b)
                        && b@.len() <= max_bytes_per_stream) by {
                    if t < visit {
                        assert(self.streams()[ring_at(c, t, nn)] == prev[ring_at(c, t, nn)]);
                        assert(polled_at(old(self).streams(), prev, c, t, nn));
                    }
                }
                assert forall|i: int| 0 <= i < visits.len() implies 0 <= #[trigger] visits[i] < visited
                    && key_views(chosen@)[i] == keys0[ring_at(c, visits[i], nn)] && polled_at(
                    old(self).streams(),
                    self.streams(),
                    c,
                    visits[i],
                    nn,
                ) by {
                    if i < visits_start.len() {
                        assert(visits[i] == visits_start[i]);
                        assert(key_views(chosen@)[i] == chosen_start[i]);
                    } else {
                        assert(visits[i] == visit);
                        assert(keys0[pos as int] == key@);
                    }
                }
                if max_streams_per_sandbox > 0 && max_bytes_per_sandbox > 0 {
                    assert forall|t: int|
                        0 <= t < visited && #[trigger] first_of_sandbox(
                            keys0,
                            old(self).streams(),
                            self.streams(),
                            c,
                            t,
                            nn,
                        ) implies polled_at(old(self).streams(), self.streams(), c, t, nn)
                        && self.streams()[ring_at(c, t, nn)].host_reads().last() == read_limit(
                        max_bytes_per_stream,
                        max_bytes_per_sandbox,
                    ) by {
                        if t < visit {
                            lemma_polled_frame(keys0, old(self).streams(), prev, self.streams(), c, t, nn);
                            assert(first_of_sandbox(keys0, old(self).streams(), prev, c, t, nn));
                        } else {
                            assert(t == visit);
                            assert(first);
                        }
                    }
                }
            }
        }
        let ghost streams_after = self.streams();
        if n > 0 {
            let cursor = ring_position(start, visited, n);
            self.read_cursor = cursor;
        }
        assert(self.streams() =~= streams_after);
        let ghost rv = read_views(reads@);
        assert(forall|s: Seq<char>| sandbox_count(read_keys(rv), s) <= max_streams_per_sandbox) by {
            assert forall|s: Seq<char>| sandbox_count(read_keys(rv), s) <= max_streams_per_sandbox by {
                assert(sandbox_count(read_keys(rv), s) <= sandbox_count(key_views(chosen@), s));
                assert(sandbox_count(key_views(chosen@), s) <= max_streams_per_sandbox);
            }
        }
        assert(self.keys() == old(self).keys());
        Ok(BridgeReadPass { reads, selected, visited })
    }
}

// ---------------------------------------------------------------------------
// The UDP bridge table.

#[derive(Clone, Copy, Debug, PartialEq, Eq, Structural)]
pub struct UdpBridgeLimits {
    pub max_flows: usize,
    pub max_flows_per_sandbox: usize,
}

pub open spec fn default_udp_limits() -> UdpBridgeLimits {
    UdpBridgeLimits {
        max_flows: DEFAULT_MAX_UDP_BRIDGES,
        max_flows_per_sandbox: DEFAULT_MAX_UDP_BRIDGES_PER_SANDBOX,
    }
}

impl Default for UdpBridgeLimits {
    fn default() -> (limits: UdpBridgeLimits)
        ensures
            limits == default_udp_limits(),
    {
        UdpBridgeLimits {
            max_flows: DEFAULT_MAX_UDP_BRIDGES,
            max_flows_per_sandbox: DEFAULT_MAX_UDP_BRIDGES_PER_SANDBOX,
        }
    }
}

struct UdpBridge<U> {
    flow: U,
    last_activity_millis: u64,
    idle_timeout_millis: u64,
}

/// Whether a flow last active at `last` with idle timeout `timeout` is
/// expired at `now` (elapsed time saturates at zero).
pub open spec fn is_expired(activity: (u64, u64), now: u64) -> bool {
    let (last, timeout) = activity;
    (if now >= last {
        now - last
    } else {
        0
    }) >= timeout
}

/// The elements of `s` whose entry in `keep` is true, in order.
pub open spec fn keep_where<A>(s: Seq<A>, keep: Seq<bool>) -> Seq<A>
    decreases s.len(),
{
    if s.len() == 0 {
        Seq::empty()
    } else {
        let rest = keep_where(s.drop_last(), keep);
        if keep[s.len() - 1] {
            rest.push(s.last())
        } else {
            rest
        }
    }
}

pub proof fn lemma_keep_where_len<A>(s: Seq<A>, keep: Seq<bool>)
    ensures
        keep_where(s, keep).len() <= s.len(),
    decreases s.len(),
{
    if s.len() > 0 {
        lemma_keep_where_len(s.drop_last(), keep);
    }
}

/// Everything kept comes from a kept index of `s`.
pub proof fn lemma_keep_where_origin<A>(s: Seq<A>, keep: Seq<bool>, j: int)
    requires
        0 <= j < keep_where(s, keep).len(),
    ensures
        exists|i: int| 0 <= i < s.len() && keep[i] && s[i] == #[trigger] keep_where(s, keep)[j],
    decreases s.len(),
{
    let rest = keep_where(s.drop_last(), keep);
    if keep[s.len() - 1] && j == rest.len() {
        assert(s[s.len() - 1] == keep_where(s, keep)[j]);
    } else {
        lemma_keep_where_origin(s.drop_last(), keep, j);
        let i = choose|i: int|
            0 <= i < s.drop_last().len() && keep[i] && s.drop_last()[i] == #[trigger] rest[j];
        assert(s[i] == keep_where(s, keep)[j]);
    }
}

pub proof fn lemma_keep_where_no_duplicates<A>(s: Seq<A>, keep: Seq<bool>)
    requires
        s.no_duplicates(),
    ensures
        keep_where(s, keep).no_duplicates(),
    decreases s.len(),
{
    if s.len() > 0 {
        let rest = keep_where(s.drop_last(), keep);
        lemma_keep_where_no_duplicates(s.drop_last(), keep);
        if keep[s.len() - 1] {
            assert forall|j: int| 0 <= j < rest.len() implies rest[j] != s.last() by {
                lemma_keep_where_origin(s.drop_last(), keep, j);
                let i = choose|i: int|
                    0 <= i < s.drop_last().len() && keep[i] && s.drop_last()[i] == #[trigger] rest[j];
                assert(s[i] == rest[j]);
            }
        }
    }
}

pub proof fn lemma_keep_where_sandbox_count(s: Seq<FlowKeyView>, keep: Seq<bool>, sandbox: Seq<char>)
    ensures
        sandbox_count(keep_where(s, keep), sandbox) <= sandbox_count(s, sandbox),
    decreases s.len(),
{
    if s.len() > 0 {
        lemma_keep_where_sandbox_count(s.drop_last(), keep, sandbox);
        let rest = keep_where(s.drop_last(), keep);
        if keep[s.len() - 1] {
            lemma_sandbox_count_push(rest, s.last(), sandbox);
        }
    }
}

/// Runtime-owned table from UDP pseudo-flows to host UDP handles, holding at
/// most `max_flows` flows and `max_flows_per_sandbox` per sandbox.
pub struct UdpBridgeTable<U> {
    flows: KeyedTable<UdpBridge<U>>,
    limits: UdpBridgeLimits,
    read_cursor: usize,
}

impl<U> UdpBridgeTable<U> {
    pub closed spec fn keys(&self) -> Seq<FlowKeyView> {
        self.flows.keys()
    }

    /// Host UDP handles, aligned with `keys`.
    pub closed spec fn flows(&self) -> Seq<U> {
        self.flows.entries@.map_values(|e: KeyedEntry<UdpBridge<U>>| e.value.flow)
    }

    /// (last activity, idle timeout) in milliseconds, aligned with `keys`.
    pub closed spec fn activity(&self) -> Seq<(u64, u64)> {
        self.flows.entries@.map_values(
            |e: KeyedEntry<UdpBridge<U>>| (e.value.last_activity_millis, e.value.idle_timeout_millis),
        )
    }

    pub closed spec fn limits_spec(&self) -> UdpBridgeLimits {
        self.limits
    }

    pub closed spec fn read_cursor_spec(&self) -> usize {
        self.read_cursor
    }

    /// The table's invariant: keys are distinct and the flow limits hold.
    pub closed spec fn wf(&self) -> bool {
        &&& self.flows.wf()
        &&& self.keys().len() <= self.limits.max_flows
        &&& forall|s: Seq<char>| sandbox_count(self.keys(), s) <= self.limits.max_flows_per_sandbox
    }

    /// Whether inserting a flow with key `k` succeeds under the limits.
    pub open spec fn admits(&self, k: FlowKeyView) -> bool {
        ||| self.keys().contains(k)
        ||| (self.keys().len() < self.limits_spec().max_flows && sandbox_count(self.keys(), k.0)
            < self.limits_spec().max_flows_per_sandbox)
    }

    /// Which flows are still live at `now`, aligned with `keys`.
    pub open spec fn live_mask(&self, now: u64) -> Seq<bool> {
        self.activity().map_values(|a: (u64, u64)| !is_expired(a, now))
    }

    pub fn with_limits(limits: UdpBridgeLimits) -> (table: UdpBridgeTable<U>)
        ensures
            table.wf(),
            table.keys() == Seq::<FlowKeyView>::empty(),
            table.limits_spec() == limits,
            table.read_cursor_spec() == 0,
    {
        let table = UdpBridgeTable { flows: KeyedTable::empty(), limits, read_cursor: 0 };
        proof {
            assert forall|s: Seq<char>| sandbox_count(table.keys(), s) <= limits.max_flows_per_sandbox by {}
        }
        table
    }

    /// An empty table with the default limits.
    pub fn new() -> (table: UdpBridgeTable<U>)
        ensures
            table.wf(),
            table.keys() == Seq::<FlowKeyView>::empty(),
            table.limits_spec() == default_udp_limits(),
            table.read_cursor_spec() == 0,
    {
        Self::with_limits(UdpBridgeLimits::default())
    }

    pub fn limits(&self) -> (limits: UdpBridgeLimits)
        ensures
            limits == self.limits_spec(),
    {
        self.limits
    }

    pub fn len(&self) -> (len: usize)
        ensures
            len == self.keys().len(),
    {
        self.flows.len()
    }

    pub fn read_cursor(&self) -> (cursor: usize)
        ensures
            cursor == self.read_cursor_spec(),
    {
        self.read_cursor
    }

    pub fn is_empty(&self) -> (empty: bool)
        ensures
            empty == (self.keys().len() == 0),
    {
        self.flows.len() == 0
    }

    pub fn contains_key(&self, key: &UdpFlowKey) -> (contains: bool)
        ensures
            contains == self.keys().contains(key@),
    {
        self.flows.find(key).is_some()
    }

    /// Stores `flow` for `key`, last active at `now_millis`. A key already
    /// present has its flow and timers replaced, whatever the limits; a new
    /// key is refused when the table or its sandbox is at its flow limit.
    pub fn try_insert_with_timeout(
        &mut self,
        key: UdpFlowKey,
        flow: U,
        now_millis: u64,
        idle_timeout_millis: u64,
    ) -> (result: Result<Option<U>, EgressError>)
        requires
            old(self).wf(),
        ensures
            final(self).wf(),
            final(self).limits_spec() == old(self).limits_spec(),
            final(self).read_cursor_spec() == old(self).read_cursor_spec(),
            result is Ok <==> old(self).admits(key@),
            old(self).keys().contains(key@) ==> {
                let i = old(self).keys().index_of(key@);
                &&& result == Ok::<Option<U>, EgressError>(Some(old(self).flows()[i]))
                &&& final(self).keys() == old(self).keys()
                &&& final(self).flows() == old(self).flows().update(i, flow)
                &&& final(self).activity() == old(self).activity().update(
                    i,
                    (now_millis, idle_timeout_millis),
                )
            },
            !old(self).keys().contains(key@) && old(self).admits(key@) ==> {
                &&& result == Ok::<Option<U>, EgressError>(None)
                &&& final(self).keys() == old(self).keys().push(key@)
                &&& final(self).flows() == old(self).flows().push(flow)
                &&& final(self).activity() == old(self).activity().push(
                    (now_millis, idle_timeout_millis),
                )
            },
            !old(self).admits(key@) ==> {
                &&& final(self).keys() == old(self).keys()
                &&& final(self).flows() == old(self).flows()
                &&& final(self).activity() == old(self).activity()
                &&& result == Err::<Option<U>, EgressError>(
                    if old(self).keys().len() >= old(self).limits_spec().max_flows {
                        EgressError::LimitExceeded(BridgeLimit::UdpFlows)
                    } else {
                        EgressError::LimitExceeded(BridgeLimit::UdpSandboxFlows)
                    },
                )
            },
    {
        match self.flows.find(&key) {
            Some(i) => {
                let ghost old_keys = self.keys();
                proof {
                    lemma_index_of_unique(old_keys, key@, i as int);
                }
                let mut fresh = UdpBridge {
                    flow,
                    last_activity_millis: now_millis,
                    idle_timeout_millis,
                };
                std::mem::swap(&mut self.flows.entries[i].value, &mut fresh);
                proof {
                    assert(self.keys() =~= old(self).keys());
                    assert(self.flows() =~= old(self).flows().update(i as int, flow));
                    assert(self.activity() =~= old(self).activity().update(
                        i as int,
                        (now_millis, idle_timeout_millis),
                    ));
                }
                Ok(Some(fresh.flow))
            },
            None => {
                if self.flows.len() >= self.limits.max_flows {
                    return Err(EgressError::LimitExceeded(BridgeLimit::UdpFlows));
                }
                let sandbox_flows = self.flows.count_sandbox(&key.sandbox_id);
                if sandbox_flows >= self.limits.max_flows_per_sandbox {
                    return Err(EgressError::LimitExceeded(BridgeLimit::UdpSandboxFlows));
                }
                let ghost k = key@;
                let ghost old_keys = self.keys();
                let bridge = UdpBridge { flow, last_activity_millis: now_millis, idle_timeout_millis };
                self.flows.push(key, bridge);
                proof {
                    assert(self.flows.entries@ =~= old(self).flows.entries@.push(
                        self.flows.entries@.last(),
                    ));
                    assert(self.flows() =~= old(self).flows().push(flow));
                    assert(self.activity() =~= old(self).activity().push(
                        (now_millis, idle_timeout_millis),
                    ));
                    assert forall|s: Seq<char>|
                        sandbox_count(self.keys(), s) <= self.limits.max_flows_per_sandbox by {
                        lemma_sandbox_count_push(old_keys, k, s);
                    }
                }
                Ok(None)
            },
        }
    }

    /// Stores `flow` for `key`; the caller guarantees the limits admit it.
    pub fn insert_with_timeout(
        &mut self,
        key: UdpFlowKey,
        flow: U,
        now_millis: u64,
        idle_timeout_millis: u64,
    ) -> (previous: Option<U>)
        requires
            old(self).wf(),
            old(self).admits(key@),
        ensures
            final(self).wf(),
            final(self).keys().contains(key@),
            previous is Some <==> old(self).keys().contains(key@),
    {
        let ghost k = key@;
        match self.try_insert_with_timeout(key, flow, now_millis, idle_timeout_millis) {
            Ok(previous) => {
                proof {
                    if !old(self).keys().contains(k) {
                        assert(self.keys().last() == k);
                    }
                }
                previous
            },
            Err(_) => None,
        }
    }

    /// Stores `flow` for `key` as active at time zero with the default idle
    /// timeout; the caller guarantees the limits admit it.
    pub fn insert(&mut self, key: UdpFlowKey, flow: U) -> (previous: Option<U>)
        requires
            old(self).wf(),
            old(self).admits(key@),
        ensures
            final(self).wf(),
            final(self).keys().contains(key@),
            previous is Some <==> old(self).keys().contains(key@),
    {
        self.insert_with_timeout(key, flow, 0, DEFAULT_UDP_BRIDGE_IDLE_TIMEOUT_MILLIS)
    }

    /// Drops every flow idle for at least its timeout at `now_millis` and
    /// returns how many were dropped; the other flows keep their order.
    pub fn expire_idle(&mut self, now_millis: u64) -> (expired: usize)
        requires
            old(self).wf(),
        ensures
            final(self).wf(),
            final(self).limits_spec() == old(self).limits_spec(),
            final(self).read_cursor_spec() == old(self).read_cursor_spec(),
            final(self).keys() == keep_where(old(self).keys(), old(self).live_mask(now_millis)),
            final(self).flows() == keep_where(old(self).flows(), old(self).live_mask(now_millis)),
            final(self).activity() == keep_where(
                old(self).activity(),
                old(self).live_mask(now_millis),
            ),
            expired == old(self).keys().len() - final(self).keys().len(),
            forall|i: int|
                0 <= i < final(self).activity().len() ==> !is_expired(
                    #[trigger] final(self).activity()[i],
                    now_millis,
                ),
    {
        let ghost mask = self.live_mask(now_millis);
        let ghost old_keys = self.keys();
        let ghost old_flows = self.flows();
        let ghost old_activity = self.activity();
        let mut remaining: Vec<KeyedEntry<UdpBridge<U>>> = Vec::new();
        std::mem::swap(&mut remaining, &mut self.flows.entries);
        let ghost old_entries = remaining@;
        let n = remaining.len();
        let mut reversed: Vec<KeyedEntry<UdpBridge<U>>> = Vec::new();
        proof {
            assert(old_entries.subrange(0, n as int) =~= old_entries);
            assert(old_entries.subrange(n as int, n as int).reverse() =~= reversed@);
        }
        while remaining.len() > 0
            invariant
                remaining@ == old_entries.subrange(0, remaining@.len() as int),
                reversed@ == old_entries.subrange(remaining@.len() as int, n as int).reverse(),
                n == old_entries.len(),
                remaining@.len() <= n,
            decreases remaining@.len(),
        {
            let ghost m = remaining@.len();
            let ghost before_rev = reversed@;
            let entry = remaining.pop().unwrap();
            proof {
                assert(entry == old_entries[m - 1]);
                assert(remaining@ =~= old_entries.subrange(0, m - 1));
            }
            reversed.push(entry);
            proof {
                let t = old_entries.subrange(m - 1, n as int);
                assert forall|k: int| 0 <= k < reversed@.len() implies reversed@[k] == t.reverse()[k] by {
                    if k < before_rev.len() {
                        assert(reversed@[k] == before_rev[k]);
                    }
                }
                assert(reversed@ =~= t.reverse());
            }
        }
        proof {
            assert(self.flows.entries@ =~= Seq::<KeyedEntry<UdpBridge<U>>>::empty());
            assert(self.keys() =~= keep_where(old_keys.subrange(0, 0), mask));
            assert(self.flows() =~= keep_where(old_flows.subrange(0, 0), mask));
            assert(self.activity() =~= keep_where(old_activity.subrange(0, 0), mask));
        }
        let mut expired: usize = 0;
        while reversed.len() > 0
            invariant
                n == old_entries.len(),
                reversed@.len() <= n,
                reversed@ == old_entries.subrange(n - reversed@.len(), n as int).reverse(),
                old_keys == old_entries.map_values(|e: KeyedEntry<UdpBridge<U>>| e.key@),
                old_flows == old_entries.map_values(|e: KeyedEntry<UdpBridge<U>>| e.value.flow),
                old_activity == old_entries.map_values(
                    |e: KeyedEntry<UdpBridge<U>>| (e.value.last_activity_millis, e.value.idle_timeout_millis),
                ),
                mask == old_activity.map_values(|a: (u64, u64)| !is_expired(a, now_millis)),
                self.keys() == keep_where(old_keys.subrange(0, n - reversed@.len()), mask),
                self.flows() == keep_where(old_flows.subrange(0, n - reversed@.len()), mask),
                self.activity() == keep_where(old_activity.subrange(0, n - reversed@.len()), mask),
                expired == (n - reversed@.len()) - self.keys().len(),
                self.limits == old(self).limits,
                self.read_cursor == old(self).read_cursor,
            decreases reversed@.len(),
        {
            let ghost j = n - reversed@.len();
            let entry = reversed.pop().unwrap();
            proof {
                assert(reversed@ =~= old_entries.subrange(j + 1, n as int).reverse());
                assert(entry == old_entries[j]);
                assert(old_keys.subrange(0, j + 1).drop_last() =~= old_keys.subrange(0, j));
                assert(old_flows.subrange(0, j + 1).drop_last() =~= old_flows.subrange(0, j));
                assert(old_activity.subrange(0, j + 1).drop_last() =~= old_activity.subrange(0, j));
                lemma_keep_where_len(old_keys.subrange(0, j), mask);
            }
            let last = entry.value.last_activity_millis;
            let elapsed = if now_millis >= last {
                now_millis - last
            } else {
                0
            };
            if elapsed < entry.value.idle_timeout_millis {
                let ghost before = self.flows.entries@;
                self.flows.entries.push(entry);
                proof {
                    assert(self.keys() =~= keep_where(old_keys.subrange(0, j), mask).push(
                        old_keys[j],
                    ));
                    assert(self.flows() =~= keep_where(old_flows.subrange(0, j), mask).push(
                        old_flows[j],
                    ));
                    assert(self.activity() =~= keep_where(old_activity.subrange(0, j), mask).push(
                        old_activity[j],
                    ));
                }
            } else {
                expired = expired + 1;
            }
        }
        proof {
            assert(old_keys.subrange(0, n as int) =~= old_keys);
            assert(old_flows.subrange(0, n as int) =~= old_flows);
            assert(old_activity.subrange(0, n as int) =~= old_activity);
            lemma_keep_where_len(old_keys, mask);
            lemma_keep_where_no_duplicates(old_keys, mask);
            assert forall|s: Seq<char>|
                sandbox_count(self.keys(), s) <= self.limits.max_flows_per_sandbox by {
                lemma_keep_where_sandbox_count(old_keys, mask, s);
            }
            assert forall|i: int| 0 <= i < self.activity().len() implies !is_expired(
                #[trigger] self.activity()[i],
                now_millis,
            ) by {
                lemma_keep_where_origin(old_activity, mask, i);
            }
        }
        expired
    }

    /// Removes the flow `key`, returning its handle.
    pub fn remove(&mut self, key: &UdpFlowKey) -> (removed: Option<U>)
        requires
            old(self).wf(),
        ensures
            final(self).wf(),
            !final(self).keys().contains(key@),
            final(self).limits_spec() == old(self).limits_spec(),
            final(self).read_cursor_spec() == old(self).read_cursor_spec(),
            old(self).keys().contains(key@) ==> {
                let i = old(self).keys().index_of(key@);
                &&& removed == Some(old(self).flows()[i])
                &&& final(self).keys() == old(self).keys().remove(i)
                &&& final(self).flows() == old(self).flows().remove(i)
                &&& final(self).activity() == old(self).activity().remove(i)
            },
            !old(self).keys().contains(key@) ==> removed is None && final(self).keys() == old(self).keys()
                && final(self).flows() == old(self).flows(),
    {
        match self.flows.find(key) {
            Some(i) => {
                let ghost old_keys = self.keys();
                proof {
                    lemma_index_of_unique(old_keys, key@, i as int);
                }
                let bridge = self.flows.remove_at(i);
                proof {
                    assert(self.flows() =~= old(self).flows().remove(i as int));
                    assert(self.activity() =~= old(self).activity().remove(i as int));
                    assert forall|s: Seq<char>|
                        sandbox_count(self.keys(), s) <= self.limits.max_flows_per_sandbox by {
                        lemma_sandbox_count_remove(old_keys, i as int, s);
                    }
                    assert(!self.keys().contains(key@)) by {
                        if self.keys().contains(key@) {
                            let j = self.keys().index_of(key@);
                            let j2 = if j < i { j } else { j + 1 };
                            assert(old_keys[j2] == key@);
                        }
                    }
                }
                Some(bridge.flow)
            },
            None => None,
        }
    }
}

/// Removing one element of a sequence without duplicates removes exactly
/// that element.
proof fn lemma_remove_contains(s: Seq<FlowKeyView>, r: int, k: FlowKeyView)
    requires
        s.no_duplicates(),
        0 <= r < s.len(),
    ensures
        s.remove(r).contains(k) <==> s.contains(k) && k != s[r],
{
    if s.remove(r).contains(k) {
        let i = s.remove(r).index_of(k);
        let i2 = if i < r { i } else { i + 1 };
        assert(s[i2] == k);
        assert(i2 != r);
    }
    if s.contains(k) && k != s[r] {
        let i = s.index_of(k);
        assert(i != r);
        let i3 = if i < r { i } else { i - 1 };
        assert(s.remove(r)[i3] == k);
    }
}

/// Removing an element of a key sequence without duplicates, together
/// with the aligned value, keeps the value found for every other key.
proof fn lemma_remove_keeps_lookup<V>(keys: Seq<FlowKeyView>, vals: Seq<V>, r: int, k: FlowKeyView)
    requires
        keys.no_duplicates(),
        keys.len() == vals.len(),
        0 <= r < keys.len(),
        keys.remove(r).contains(k),
    ensures
        keys.contains(k),
        vals.remove(r)[keys.remove(r).index_of(k)] == vals[keys.index_of(k)],
{
    let j = keys.remove(r).index_of(k);
    let j2 = if j < r { j } else { j + 1 };
    assert(keys[j2] == k);
    lemma_index_of_unique(keys, k, j2);
}

/// Whether both addresses of a flow are of the same IP family.
pub open spec fn same_family(k: FlowKeyView) -> bool {
    (k.2.ip is V4 && k.3.ip is V4) || (k.2.ip is V6 && k.3.ip is V6)
}

fn key_same_family(key: &UdpFlowKey) -> (same: bool)
    ensures
        same == same_family(key@),
{
    key.source.is_ipv4() == key.destination.is_ipv4()
}

/// One budgeted pass over the host UDP flows: the replies read (only
/// nonempty ones are kept), the flows whose read failed and that were
/// removed, how many flows were read, and how many were looked at.
pub struct UdpReadPass {
    pub replies: Vec<(UdpFlowKey, Vec<u8>)>,
    pub failed: Vec<UdpFlowKey>,
    pub selected: usize,
    pub visited: usize,
}

impl<U: HostUdpFlow> UdpBridgeTable<U> {
    /// Reads host replies round-robin under the same per-pass budgets as
    /// the TCP bridges (see `StackTcpBridgeTable::read_to_sandbox_with_budget`);
    /// a flow that replied counts as active at `now_millis`. A failed read (a
    /// reply longer than was asked for counts as one) of a flow whose
    /// addresses share one IP family marks the flow failed:
    /// after the pass it is removed (the sandbox is then told the port is
    /// unreachable). A failed read of a mixed-family flow ends the pass with
    /// its error and leaves the cursor where it was.
    pub fn read_from_host_with_budget(
        &mut self,
        max_bytes_per_flow: usize,
        max_flows: usize,
        max_flows_per_sandbox: usize,
        max_bytes_per_sandbox: usize,
        now_millis: u64,
    ) -> (result: Result<UdpReadPass, EgressError>)
        requires
            old(self).wf(),
        ensures
            final(self).wf(),
            final(self).limits_spec() == old(self).limits_spec(),
            result is Err ==> final(self).read_cursor_spec() == old(self).read_cursor_spec()
                && final(self).keys() == old(self).keys(),
            old(self).keys().len() == 0 || max_flows == 0 || max_flows_per_sandbox == 0
                || max_bytes_per_sandbox == 0 || (forall|k: FlowKeyView|
                old(self).keys().contains(k) ==> same_family(k)) ==> result is Ok,
            result matches Ok(pass) ==> {
                let n = old(self).keys().len();
                let replies = read_views(pass.replies@);
                let failed = key_views(pass.failed@);
                &&& pass.visited <= n
                &&& pass.selected <= pass.visited
                &&& pass.selected <= max_flows
                &&& pass.visited == n || pass.selected == max_flows
                &&& pass.replies@.len() + pass.failed@.len() <= pass.selected
                &&& final(self).read_cursor_spec() == (if n == 0 {
                    old(self).read_cursor_spec() as int
                } else {
                    (old(self).read_cursor_spec() as int % (n as int) + pass.visited) % (n as int)
                })
                &&& forall|i: int|
                    0 <= i < replies.len() ==> 1 <= (#[trigger] replies[i]).1.len()
                        <= max_bytes_per_flow && old(self).keys().contains(replies[i].0)
                &&& forall|i: int|
                    0 <= i < failed.len() ==> old(self).keys().contains(#[trigger] failed[i])
                        && same_family(failed[i])
                &&& forall|k: FlowKeyView|
                    final(self).keys().contains(k) <==> old(self).keys().contains(k)
                        && !failed.contains(k)
                &&& forall|s: Seq<char>| sandbox_count(read_keys(replies), s) <= max_flows_per_sandbox
                &&& forall|s: Seq<char>| sandbox_bytes(replies, s) <= max_bytes_per_sandbox
                &&& forall|k: FlowKeyView|
                    #[trigger] final(self).keys().contains(k) ==> received_at_most_once(
                        old(self).flows()[old(self).keys().index_of(k)],
                        final(self).flows()[final(self).keys().index_of(k)],
                        read_limit(max_bytes_per_flow, max_bytes_per_sandbox),
                    )
                &&& forall|t: int|
                    #![trigger ring_at(old(self).read_cursor_spec() as int, t, n as int)]
                    pass.visited <= t < n ==> ({
                        let r = ring_at(old(self).read_cursor_spec() as int, t, n as int);
                        let k = old(self).keys()[r];
                        &&& final(self).keys().contains(k)
                        &&& final(self).flows()[final(self).keys().index_of(k)] == old(self).flows()[r]
                    })
                &&& max_flows_per_sandbox > 0 && max_bytes_per_sandbox > 0 ==> forall|t: int|
                    0 <= t < pass.visited && #[trigger] first_polled_of_sandbox(
                        old(self).keys(),
                        old(self).flows(),
                        final(self).keys(),
                        final(self).flows(),
                        failed,
                        old(self).read_cursor_spec() as int,
                        t,
                        n as int,
                    ) ==> flow_polled(
                        old(self).keys(),
                        old(self).flows(),
                        final(self).keys(),
                        final(self).flows(),
                        failed,
                        old(self).read_cursor_spec() as int,
                        t,
                        n as int,
                    ) && ({
                        let k = old(self).keys()[ring_at(old(self).read_cursor_spec() as int, t, n as int)];
                        !failed.contains(k) ==> final(self).flows()[final(self).keys().index_of(
                            k,
                        )].recv_requests().last() == read_limit(max_bytes_per_flow, max_bytes_per_sandbox)
                    })
                &&& forall|k: FlowKeyView|
                    #[trigger] failed.contains(k) ==> exists|t: int|
                        0 <= t < pass.visited && old(self).keys()[ring_at(
                            old(self).read_cursor_spec() as int,
                            t,
                            n as int,
                        )] == k
                &&& read_views(pass.replies@) == collect_present(
                    udp_reply_item(
                        old(self).keys(),
                        old(self).flows(),
                        final(self).keys(),
                        final(self).flows(),
                        old(self).read_cursor_spec() as int,
                        n as int,
                    ),
                    pass.visited as int,
                )
                &&& ({
                    let polled = collect_present(
                        udp_polled_key(
                            old(self).keys(),
                            old(self).flows(),
                            final(self).keys(),
                            final(self).flows(),
                            failed,
                            old(self).read_cursor_spec() as int,
                            n as int,
                        ),
                        pass.visited as int,
                    );
                    &&& polled.len() == pass.selected
                    &&& forall|s: Seq<char>| sandbox_count(polled, s) <= max_flows_per_sandbox
                })
                &&& forall|t: int|
                    #![trigger ring_at(old(self).read_cursor_spec() as int, t, n as int)]
                    0 <= t < pass.visited ==> ({
                        let r = ring_at(old(self).read_cursor_spec() as int, t, n as int);
                        let k = old(self).keys()[r];
                        (final(self).keys().contains(k) && final(self).flows()[final(self).keys().index_of(
                            k,
                        )].recv_requests().len() > old(self).flows()[r].recv_requests().len())
                            ==> recv_ok(old(self).flows()[r], final(self).flows()[final(self).keys().index_of(k)])
                    })
                &&& 0 < pass.visited < n ==> ({
                    let r = ring_at(old(self).read_cursor_spec() as int, pass.visited - 1, n as int);
                    let k = old(self).keys()[r];
                    ||| failed.contains(k)
                    ||| final(self).keys().contains(k) && final(self).flows()[final(self).keys().index_of(
                        k,
                    )].recv_requests().len() > old(self).flows()[r].recv_requests().len()
                })
            },
    {
        let n = self.flows.entries.len();
        let start: usize = if n == 0 {
            0
        } else {
            self.read_cursor % n
        };
        let mut replies: Vec<(UdpFlowKey, Vec<u8>)> = Vec::new();
        let mut failed: Vec<UdpFlowKey> = Vec::new();
        let mut chosen: Vec<UdpFlowKey> = Vec::new();
        let mut selected: usize = 0;
        let mut visited: usize = 0;
        let ghost keys0 = self.keys();
        let ghost mut visits: Seq<int> = Seq::empty();
        let ghost mut failed_visits: Seq<int> = Seq::empty();
        assert(read_keys(read_views(replies@)) =~= Seq::<FlowKeyView>::empty());
        assert(key_views(chosen@) =~= Seq::<FlowKeyView>::empty());
        while visited < n && selected < max_flows
            invariant
                self.wf(),
                keys0 == old(self).keys(),
                n == keys0.len(),
                n == 0 ==> start == 0,
                n > 0 ==> start < n,
                self.keys() == keys0,
                self.limits == old(self).limits,
                self.read_cursor == old(self).read_cursor,
                start == (if n == 0 {
                    0
                } else {
                    old(self).read_cursor % n
                }),
                visited <= n,
                selected <= visited,
                selected <= max_flows,
                chosen@.len() == selected,
                replies@.len() + failed@.len() <= selected,
                forall|i: int|
                    0 <= i < read_views(replies@).len() ==> 1 <= (#[trigger] read_views(
                        replies@,
                    )[i]).1.len() <= max_bytes_per_flow && keys0.contains(
                        read_views(replies@)[i].0,
                    ),
                forall|i: int|
                    0 <= i < key_views(failed@).len() ==> keys0.contains(
                        #[trigger] key_views(failed@)[i],
                    ) && same_family(key_views(failed@)[i]),
                forall|s: Seq<char>| sandbox_count(key_views(chosen@), s) <= max_flows_per_sandbox,
                forall|s: Seq<char>|
                    sandbox_count(read_keys(read_views(replies@)), s) <= sandbox_count(
                        key_views(chosen@),
                        s,
                    ),
                forall|s: Seq<char>| sandbox_bytes(read_views(replies@), s) <= max_bytes_per_sandbox,
                self.flows().len() == n,
                old(self).flows().len() == n,
                keys0.no_duplicates(),
                forall|j: int|
                    0 <= j < n ==> received_at_most_once(
                        old(self).flows()[j],
                        #[trigger] self.flows()[j],
                        read_limit(max_bytes_per_flow, max_bytes_per_sandbox),
                    ),
                forall|t: int|
                    visited <= t < n ==> self.flows()[ring_at(
                        old(self).read_cursor as int,
                        t,
                        n as int,
                    )] == old(self).flows()[ring_at(old(self).read_cursor as int, t, n as int)]
                        && !key_views(failed@).contains(
                        keys0[ring_at(old(self).read_cursor as int, t, n as int)],
                    ),
                visited > 0 && selected == max_flows ==> ({
                    let last = ring_at(old(self).read_cursor as int, visited - 1, n as int);
                    self.flows()[last].recv_requests().len() > old(self).flows()[last].recv_requests().len()
                }),
                visits.len() == chosen@.len(),
                forall|i: int|
                    0 <= i < visits.len() ==> 0 <= #[trigger] visits[i] < visited && key_views(chosen@)[i]
                        == keys0[ring_at(old(self).read_cursor as int, visits[i], n as int)] && received_at(
                        old(self).flows(),
                        self.flows(),
                        old(self).read_cursor as int,
                        visits[i],
                        n as int,
                    ),
                failed_visits.len() == failed@.len(),
                forall|i: int|
                    0 <= i < failed_visits.len() ==> 0 <= #[trigger] failed_visits[i] < visited
                        && key_views(failed@)[i] == keys0[ring_at(
                        old(self).read_cursor as int,
                        failed_visits[i],
                        n as int,
                    )] && received_at(
                        old(self).flows(),
                        self.flows(),
                        old(self).read_cursor as int,
                        failed_visits[i],
                        n as int,
                    ) && !recv_ok(
                        old(self).flows()[ring_at(old(self).read_cursor as int, failed_visits[i], n as int)],
                        self.flows()[ring_at(old(self).read_cursor as int, failed_visits[i], n as int)],
                    ),
                read_views(replies@) == collect_present(
                    udp_mid_reply_item(keys0, old(self).flows(), self.flows(), old(self).read_cursor as int, n as int),
                    visited as int,
                ),
                key_views(chosen@) == collect_present(
                    udp_mid_polled_key(keys0, old(self).flows(), self.flows(), old(self).read_cursor as int, n as int),
                    visited as int,
                ),
                forall|t: int|
                    0 <= t < visited && #[trigger] received_at(
                        old(self).flows(),
                        self.flows(),
                        old(self).read_cursor as int,
                        t,
                        n as int,
                    ) && !recv_ok(
                        old(self).flows()[ring_at(old(self).read_cursor as int, t, n as int)],
                        self.flows()[ring_at(old(self).read_cursor as int, t, n as int)],
                    ) ==> key_views(failed@).contains(keys0[ring_at(old(self).read_cursor as int, t, n as int)]),
                max_flows_per_sandbox > 0 && max_bytes_per_sandbox > 0 ==> forall|t: int|
                    0 <= t < visited && #[trigger] first_flow_of_sandbox(
                        keys0,
                        old(self).flows(),
                        self.flows(),
                        old(self).read_cursor as int,
                        t,
                        n as int,
                    ) ==> received_at(
                        old(self).flows(),
                        self.flows(),
                        old(self).read_cursor as int,
                        t,
                        n as int,
                    ) && self.flows()[ring_at(
                        old(self).read_cursor as int,
                        t,
                        n as int,
                    )].recv_requests().last() == read_limit(max_bytes_per_flow, max_bytes_per_sandbox),
            decreases n - visited,
        {
            let ghost visit = visited as int;
            let ghost prev = self.flows();
            let ghost visits_start = visits;
            let ghost failed_visits_start = failed_visits;
            let ghost failed_start = key_views(failed@);
            let ghost chosen_start = key_views(chosen@);
            let ghost replies_start = read_views(replies@);
            let pos = ring_position(start, visited, n);
            proof {
                assert(pos == ring_at(old(self).read_cursor as int, visit, n as int));
                assert forall|t: int| visit < t < n implies ring_at(
                    old(self).read_cursor as int,
                    t,
                    n as int,
                ) != pos by {
                    lemma_ring_distinct(start as int, visit, t, n as int);
                }
            }
            visited = visited + 1;
            let key = self.flows.entries[pos].key.duplicate();
            proof {
                assert(keys0[pos as int] == key@);
            }
            let ghost first = first_flow_of_sandbox(
                keys0,
                old(self).flows(),
                prev,
                old(self).read_cursor as int,
                visit,
                n as int,
            );
            let flows_so_far = count_keys_of(&chosen, &key.sandbox_id);
            proof {
                if first {
                    assert forall|i: int| 0 <= i < chosen_start.len() implies (
                    #[trigger] chosen_start[i]).0 != key@.0 by {
                        assert(0 <= visits_start[i] < visit);
                        assert(received_at(
                            old(self).flows(),
                            prev,
                            old(self).read_cursor as int,
                            visits_start[i],
                            n as int,
                        ));
                    }
                    lemma_sandbox_count_absent(chosen_start, key@.0);
                    lemma_sandbox_bytes_absent(replies_start, key@.0);
                }
            }
            if flows_so_far < max_flows_per_sandbox {
                let bytes_so_far = bytes_of(
                    &replies,
                    &key.sandbox_id,
                    Ghost(max_bytes_per_sandbox as nat),
                );
                let remaining = max_bytes_per_sandbox - bytes_so_far;
                if remaining > 0 {
                    let ghost chosen_before = key_views(chosen@);
                    let ghost replies_before = read_views(replies@);
                    chosen.push(key.duplicate());
                    selected = selected + 1;
                    proof {
                        visits = visits.push(visit);
                    }
                    proof {
                        assert(key_views(chosen@) =~= chosen_before.push(key@));
                        lemma_choose_keeps_budget(
                            chosen_before,
                            read_keys(replies_before),
                            key@,
                            max_flows_per_sandbox as nat,
                        );
                    }
                    let cap = if max_bytes_per_flow < remaining {
                        max_bytes_per_flow
                    } else {
                        remaining
                    };
                    let ghost flows_before = self.flows();
                    let raw = self.flows.entries[pos].value.flow.recv_to_sandbox(cap);
                    let ghost raw_v = raw;
                    let got = checked_read(raw, cap);
                    proof {
                        assert(self.keys() =~= keys0);
                        assert(flows_before[pos as int] == old(self).flows()[pos as int]);
                        assert forall|j: int| 0 <= j < n && j != pos implies #[trigger] self.flows()[j]
                            == flows_before[j] by {}
                        let r0 = old(self).flows()[pos as int].recv_requests();
                        let r1 = self.flows()[pos as int].recv_requests();
                        assert(r1 == r0.push(cap));
                        assert(r1.take(r0.len() as int) =~= r0);
                        let capmax = read_limit(max_bytes_per_flow, max_bytes_per_sandbox);
                        assert(cap <= capmax);
                        assert(at_most_one_read(r0, r1, capmax));
                        assert forall|j: int| 0 <= j < n implies received_at_most_once(
                            old(self).flows()[j],
                            #[trigger] self.flows()[j],
                            capmax,
                        ) by {
                            if j != pos {
                                assert(self.flows()[j] == flows_before[j]);
                            }
                        }
                    }
                    match got {
                        Err(e) => {
                            if key_same_family(&key) {
                                let ghost failed_before = key_views(failed@);
                                failed.push(key);
                                proof {
                                    failed_visits = failed_visits.push(visit);
                                    assert(key_views(failed@) =~= failed_before.push(key@));
                                    assert forall|t: int| visited <= t < n implies !key_views(
                                        failed@,
                                    ).contains(keys0[ring_at(old(self).read_cursor as int, t, n as int)]) by {
                                        let c = old(self).read_cursor as int;
                                        let nn = n as int;
                                        let r = ring_at(c, t, nn);
                                        assert(r != pos);
                                        assert(0 <= (c % nn + t) % nn < nn) by (nonlinear_arith)
                                            requires
                                                nn > 0,
                                        ;
                                        if keys0[r] == key@ {
                                            lemma_index_of_unique(keys0, key@, r);
                                            lemma_index_of_unique(keys0, key@, pos as int);
                                        }
                                        if key_views(failed@).contains(keys0[r]) {
                                            let q = key_views(failed@).index_of(keys0[r]);
                                            if q < failed_before.len() {
                                                assert(failed_before[q] == keys0[r]);
                                            }
                                        }
                                    }
                                    assert forall|i: int|
                                        0 <= i < key_views(failed@).len() implies keys0.contains(
                                        #[trigger] key_views(failed@)[i],
                                    ) && same_family(key_views(failed@)[i]) by {
                                        if i < failed_before.len() {
                                            assert(key_views(failed@)[i] == failed_before[i]);
                                        }
                                    }
                                }
                            } else {
                                return Err(e);
                            }
                        },
                        Ok(bytes) => {
                            proof {
                                assert(raw_v == Ok::<Vec<u8>, EgressError>(bytes));
                            }
                            if bytes.len() > 0 {
                                let ghost flows_mid = self.flows();
                                self.flows.entries[pos].value.last_activity_millis = now_millis;
                                proof {
                                    assert(self.keys() =~= keys0);
                                    assert(self.flows() =~= flows_mid);
                                }
                                let ghost b = bytes@;
                                replies.push((key, bytes));
                                proof {
                                    let rv = read_views(replies@);
                                    assert(rv =~= replies_before.push((key@, b)));
                                    assert(read_keys(rv) =~= read_keys(replies_before).push(key@));
                                    lemma_read_keeps_budget(
                                        chosen_before,
                                        replies_before,
                                        key@,
                                        b,
                                        max_bytes_per_sandbox as nat,
                                    );
                                    assert forall|i: int| 0 <= i < rv.len() implies 1 <= (
                                    #[trigger] rv[i]).1.len() <= max_bytes_per_flow
                                        && keys0.contains(rv[i].0) by {
                                        if i < replies_before.len() {
                                            assert(rv[i] == replies_before[i]);
                                        } else {
                                            assert(keys0[pos as int] == key@);
                                        }
                                    }
                                }
                            }
                        },
                    }
                }
            }
            proof {
                let c = old(self).read_cursor as int;
                let nn = n as int;
                assert forall|u: int| 0 <= u < visit implies #[trigger] self.flows()[ring_at(c, u, nn)]
                    == prev[ring_at(c, u, nn)] by {
                    lemma_ring_distinct(start as int, u, visit, nn);
                }
                lemma_received_frame(keys0, old(self).flows(), prev, self.flows(), c, visit, nn);
                assert forall|i: int| 0 <= i < visits.len() implies 0 <= #[trigger] visits[i] < visited
                    && key_views(chosen@)[i] == keys0[ring_at(c, visits[i], nn)] && received_at(
                    old(self).flows(),
                    self.flows(),
                    c,
                    visits[i],
                    nn,
                ) by {
                    if i < visits_start.len() {
                        assert(visits[i] == visits_start[i]);
                        assert(key_views(chosen@)[i] == chosen_start[i]);
                    } else {
                        assert(visits[i] == visit);
                        assert(keys0[pos as int] == key@);
                    }
                }
                assert forall|i: int| 0 <= i < failed_visits.len() implies 0 <= #[trigger] failed_visits[i]
                    < visited && key_views(failed@)[i] == keys0[ring_at(c, failed_visits[i], nn)]
                    && received_at(old(self).flows(), self.flows(), c, failed_visits[i], nn) && !recv_ok(
                    old(self).flows()[ring_at(c, failed_visits[i], nn)],
                    self.flows()[ring_at(c, failed_visits[i], nn)],
                ) by {
                    if i < failed_visits_start.len() {
                        assert(failed_visits[i] == failed_visits_start[i]);
                        assert(key_views(failed@)[i] == failed_start[i]);
                        assert(self.flows()[ring_at(c, failed_visits[i], nn)] == prev[ring_at(
                            c,
                            failed_visits[i],
                            nn,
                        )]);
                    } else {
                        assert(failed_visits[i] == visit);
                        assert(keys0[pos as int] == key@);
                    }
                }
                let fi = udp_mid_reply_item(keys0, old(self).flows(), self.flows(), c, nn);
                let fp = udp_mid_reply_item(keys0, old(self).flows(), prev, c, nn);
                let ki = udp_mid_polled_key(keys0, old(self).flows(), self.flows(), c, nn);
                let kp = udp_mid_polled_key(keys0, old(self).flows(), prev, c, nn);
                assert forall|u: int| 0 <= u < visit implies #[trigger] fi(u) == fp(u) && ki(u) == kp(u) by {
                    assert(self.flows()[ring_at(c, u, nn)] == prev[ring_at(c, u, nn)]);
                    assert(received_at(old(self).flows(), self.flows(), c, u, nn) == received_at(
                        old(self).flows(),
                        prev,
                        c,
                        u,
                        nn,
                    ));
                }
                assert forall|u: int| 0 <= u < visit implies #[trigger] fi(u) == fp(u) by {}
                assert forall|u: int| 0 <= u < visit implies #[trigger] ki(u) == kp(u) by {}
                lemma_collect_same(fi, fp, visit);
                lemma_collect_same(ki, kp, visit);
                assert(prev[pos as int] == old(self).flows()[pos as int]);
                assert forall|t: int|
                    0 <= t < visited && #[trigger] received_at(old(self).flows(), self.flows(), c, t, nn)
                        && !recv_ok(old(self).flows()[ring_at(c, t, nn)], self.flows()[ring_at(c, t, nn)])
                        implies key_views(failed@).contains(keys0[ring_at(c, t, nn)]) by {
                    if t < visit {
                        assert(self.flows()[ring_at(c, t, nn)] == prev[ring_at(c, t, nn)]);
                        assert(received_at(old(self).flows(), prev, c, t, nn));
                        let q = failed_start.index_of(keys0[ring_at(c, t, nn)]);
                        assert(failed_start[q] == key_views(failed@)[q]);
                    } else {
                        assert(key_views(failed@).last() == key@);
                    }
                }
                if max_flows_per_sandbox > 0 && max_bytes_per_sandbox > 0 {
                    assert forall|t: int|
                        0 <= t < visited && #[trigger] first_flow_of_sandbox(
                            keys0,
                            old(self).flows(),
                            self.flows(),
                            c,
                            t,
                            nn,
                        ) implies received_at(old(self).flows(), self.flows(), c, t, nn)
                        && self.flows()[ring_at(c, t, nn)].recv_requests().last() == read_limit(
                        max_bytes_per_flow,
                        max_bytes_per_sandbox,
                    ) by {
                        if t < visit {
                            lemma_received_frame(keys0, old(self).flows(), prev, self.flows(), c, t, nn);
                            assert(first_flow_of_sandbox(keys0, old(self).flows(), prev, c, t, nn));
                        } else {
                            assert(t == visit);
                            assert(first);
                        }
                    }
                }
            }
        }
        let ghost flows_loop_end = self.flows();
        if n > 0 {
            let cursor = ring_position(start, visited, n);
            self.read_cursor = cursor;
        }
        let ghost rv = read_views(replies@);
        assert forall|s: Seq<char>| sandbox_count(read_keys(rv), s) <= max_flows_per_sandbox by {
            assert(sandbox_count(read_keys(rv), s) <= sandbox_count(key_views(chosen@), s));
            assert(sandbox_count(key_views(chosen@), s) <= max_flows_per_sandbox);
        }
        let ghost cursor_after = self.read_cursor;
        let ghost all_failed = key_views(failed@);
        let ghost flows_mid = self.flows();
        proof {
            assert(flows_mid =~= flows_loop_end);
            assert forall|k: FlowKeyView| #[trigger] self.keys().contains(k) implies self.flows()[self.keys().index_of(k)]
                == flows_mid[keys0.index_of(k)] by {}
        }
        let mut j: usize = 0;
        while j < failed.len()
            invariant
                self.wf(),
                j <= failed@.len(),
                all_failed == key_views(failed@),
                self.limits == old(self).limits,
                self.read_cursor == cursor_after,
                forall|k: FlowKeyView|
                    #[trigger] self.keys().contains(k) ==> self.flows()[self.keys().index_of(k)]
                        == flows_mid[keys0.index_of(k)],
                forall|k: FlowKeyView|
                    self.keys().contains(k) <==> keys0.contains(k) && !all_failed.subrange(
                        0,
                        j as int,
                    ).contains(k),
            decreases failed@.len() - j,
        {
            let ghost before = self.keys();
            let ghost before_flows = self.flows();
            let ghost fk = failed@[j as int]@;
            assert(forall|k: FlowKeyView|
                before.contains(k) <==> keys0.contains(k) && !all_failed.subrange(0, j as int).contains(k));
            self.remove(&failed[j]);
            proof {
                assert(before.len() == before_flows.len());
                assert forall|k: FlowKeyView| #[trigger] self.keys().contains(k) implies self.flows()[self.keys().index_of(k)]
                    == flows_mid[keys0.index_of(k)] by {
                    if before.contains(fk) {
                        let r = before.index_of(fk);
                        lemma_remove_keeps_lookup(before, before_flows, r, k);
                    }
                }
                let prev = all_failed.subrange(0, j as int);
                let next = all_failed.subrange(0, j + 1);
                assert(next =~= prev.push(fk));
                assert forall|k: FlowKeyView| self.keys().contains(k) <==> before.contains(k) && k != fk by {
                    if before.contains(fk) {
                        let r = before.index_of(fk);
                        lemma_remove_contains(before, r, k);
                    }
                }
                assert forall|k: FlowKeyView| next.contains(k) <==> prev.contains(k) || k == fk by {
                    if next.contains(k) {
                        let t = next.index_of(k);
                        if t < j {
                            assert(prev[t] == k);
                        }
                    }
                    if prev.contains(k) {
                        let t = prev.index_of(k);
                        assert(next[t] == k);
                    }
                    if k == fk {
                        assert(next[j as int] == k);
                    }
                }
                assert forall|k: FlowKeyView|
                    self.keys().contains(k) <==> keys0.contains(k) && !next.contains(k) by {
                    assert(before.contains(k) <==> keys0.contains(k) && !prev.contains(k));
                    assert(next.contains(k) <==> prev.contains(k) || k == fk);
                    assert(self.keys().contains(k) <==> before.contains(k) && k != fk);
                }
            }
            j = j + 1;
        }
        assert(all_failed.subrange(0, failed@.len() as int) =~= all_failed);
        proof {
            let lim = read_limit(max_bytes_per_flow, max_bytes_per_sandbox);
            let c = old(self).read_cursor as int;
            assert forall|k: FlowKeyView| #[trigger] self.keys().contains(k) implies received_at_most_once(
                old(self).flows()[old(self).keys().index_of(k)],
                self.flows()[self.keys().index_of(k)],
                lim,
            ) by {
                assert(keys0.contains(k));
                let i0 = keys0.index_of(k);
                assert(received_at_most_once(old(self).flows()[i0], flows_mid[i0], lim));
            }
            assert forall|t: int|
                #![trigger ring_at(c, t, n as int)]
                visited <= t < n implies ({
                    let r = ring_at(c, t, n as int);
                    let k = keys0[r];
                    &&& self.keys().contains(k)
                    &&& self.flows()[self.keys().index_of(k)] == old(self).flows()[r]
                }) by {
                let r = ring_at(c, t, n as int);
                let nn = n as int;
                assert(0 <= (c % nn + t) % nn < nn) by (nonlinear_arith)
                    requires
                        nn > 0,
                ;
                let k = keys0[r];
                assert(!all_failed.contains(k));
                lemma_index_of_unique(keys0, k, r);
                assert(self.keys().contains(k));
                assert(flows_mid[r] == old(self).flows()[r]);
            }
            let nn = n as int;
            let fin_keys = self.keys();
            let fin_flows = self.flows();
            assert forall|u: int| 0 <= u < visited implies #[trigger] flow_polled(
                keys0,
                old(self).flows(),
                fin_keys,
                fin_flows,
                all_failed,
                c,
                u,
                nn,
            ) == received_at(old(self).flows(), flows_mid, c, u, nn) by {
                let r = ring_at(c, u, nn);
                assert(0 <= (c % nn + u) % nn < nn) by (nonlinear_arith)
                    requires
                        nn > 0,
                ;
                let k = keys0[r];
                lemma_index_of_unique(keys0, k, r);
                if all_failed.contains(k) {
                    let i = all_failed.index_of(k);
                    let v = failed_visits[i];
                    let rv = ring_at(c, v, nn);
                    assert(0 <= (c % nn + v) % nn < nn) by (nonlinear_arith)
                        requires
                            nn > 0,
                            0 <= v,
                    ;
                    lemma_index_of_unique(keys0, k, rv);
                    assert(rv == r);
                } else {
                    assert(fin_keys.contains(k));
                }
            }
            let fin_reply = udp_reply_item(keys0, old(self).flows(), fin_keys, fin_flows, c, nn);
            let mid_reply = udp_mid_reply_item(keys0, old(self).flows(), flows_mid, c, nn);
            assert forall|u: int| 0 <= u < visited implies #[trigger] fin_reply(u) == mid_reply(u) by {
                let r = ring_at(c, u, nn);
                assert(0 <= (c % nn + u) % nn < nn) by (nonlinear_arith)
                    requires
                        nn > 0,
                ;
                let k = keys0[r];
                lemma_index_of_unique(keys0, k, r);
                if all_failed.contains(k) {
                    let i = all_failed.index_of(k);
                    let v = failed_visits[i];
                    let rv = ring_at(c, v, nn);
                    assert(0 <= (c % nn + v) % nn < nn) by (nonlinear_arith)
                        requires
                            nn > 0,
                            0 <= v,
                    ;
                    lemma_index_of_unique(keys0, k, rv);
                    assert(rv == r);
                    assert(!fin_keys.contains(k));
                } else {
                    assert(fin_keys.contains(k));
                }
            }
            lemma_collect_same(fin_reply, mid_reply, visited as int);
            assert forall|k: FlowKeyView| #[trigger] all_failed.contains(k) implies exists|t: int|
                0 <= t < visited && keys0[ring_at(c, t, nn)] == k by {
                let i = all_failed.index_of(k);
                let v = failed_visits[i];
                assert(0 <= v < visited && keys0[ring_at(c, v, nn)] == k);
            }
            let fin_key = udp_polled_key(keys0, old(self).flows(), fin_keys, fin_flows, all_failed, c, nn);
            let mid_key = udp_mid_polled_key(keys0, old(self).flows(), flows_mid, c, nn);
            assert forall|u: int| 0 <= u < visited implies #[trigger] fin_key(u) == mid_key(u) by {
                assert(flow_polled(keys0, old(self).flows(), fin_keys, fin_flows, all_failed, c, u, nn)
                    == received_at(old(self).flows(), flows_mid, c, u, nn));
            }
            lemma_collect_same(fin_key, mid_key, visited as int);
            assert forall|t: int|
                #![trigger ring_at(c, t, nn)]
                0 <= t < visited implies ({
                    let r = ring_at(c, t, nn);
                    let k = keys0[r];
                    (fin_keys.contains(k) && fin_flows[fin_keys.index_of(k)].recv_requests().len()
                        > old(self).flows()[r].recv_requests().len()) ==> recv_ok(
                        old(self).flows()[r],
                        fin_flows[fin_keys.index_of(k)],
                    )
                }) by {
                let r = ring_at(c, t, nn);
                assert(0 <= (c % nn + t) % nn < nn) by (nonlinear_arith)
                    requires
                        nn > 0,
                ;
                let k = keys0[r];
                lemma_index_of_unique(keys0, k, r);
                if fin_keys.contains(k) {
                    assert(!all_failed.contains(k));
                    assert(fin_flows[fin_keys.index_of(k)] == flows_mid[r]);
                    if received_at(old(self).flows(), flows_mid, c, t, nn) {
                        assert(recv_ok(old(self).flows()[r], flows_mid[r]));
                    }
                }
            }
            if max_flows_per_sandbox > 0 && max_bytes_per_sandbox > 0 {
                assert forall|t: int|
                    0 <= t < visited && #[trigger] first_polled_of_sandbox(
                        keys0,
                        old(self).flows(),
                        fin_keys,
                        fin_flows,
                        all_failed,
                        c,
                        t,
                        nn,
                    ) implies flow_polled(keys0, old(self).flows(), fin_keys, fin_flows, all_failed, c, t, nn)
                    && (!all_failed.contains(keys0[ring_at(c, t, nn)]) ==> fin_flows[fin_keys.index_of(
                    keys0[ring_at(c, t, nn)],
                )].recv_requests().last() == read_limit(max_bytes_per_flow, max_bytes_per_sandbox)) by {
                    assert forall|u: int| 0 <= u < t && #[trigger] received_at(old(self).flows(), flows_mid, c, u, nn)
                        implies keys0[ring_at(c, u, nn)].0 != keys0[ring_at(c, t, nn)].0 by {
                        assert(flow_polled(keys0, old(self).flows(), fin_keys, fin_flows, all_failed, c, u, nn));
                    }
                    assert(first_flow_of_sandbox(keys0, old(self).flows(), flows_mid, c, t, nn));
                    let r = ring_at(c, t, nn);
                    assert(0 <= (c % nn + t) % nn < nn) by (nonlinear_arith)
                        requires
                            nn > 0,
                    ;
                    lemma_index_of_unique(keys0, keys0[r], r);
                }
            }
            if 0 < visited < n {
                let r = ring_at(c, visited - 1, n as int);
                let nn = n as int;
                assert(0 <= (c % nn + (visited - 1)) % nn < nn) by (nonlinear_arith)
                    requires
                        nn > 0,
                ;
                let k = keys0[r];
                lemma_index_of_unique(keys0, k, r);
                if !all_failed.contains(k) {
                    assert(self.keys().contains(k));
                    assert(flows_mid[r].recv_requests().len() > old(self).flows()[r].recv_requests().len());
                }
            }
        }
        Ok(UdpReadPass { replies, failed, selected, visited })
    }
}

} // verus!
