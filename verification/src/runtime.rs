//! Bookkeeping of the broker's nonblocking runtime loop: per-tick budgets,
//! the counters one maintenance pass reports, their accumulation over a run,
//! and the decision after each tick (advance sequence numbers and clocks,
//! count progress, stop after an idle streak).

use crate::bridge::{
    DEFAULT_MAX_TCP_BRIDGES_PER_SANDBOX_PER_TICK, DEFAULT_MAX_TCP_BRIDGES_PER_TICK,
    DEFAULT_MAX_UDP_BRIDGES_PER_SANDBOX_PER_TICK, DEFAULT_MAX_UDP_BRIDGES_PER_TICK,
};
use vstd::prelude::*;

verus! {

/// Per-tick limits on bridge maintenance work.
#[derive(Clone, Copy, Debug, PartialEq, Eq, Structural)]
pub struct BridgeMaintenanceBudget {
    pub max_tcp_streams_per_tick: usize,
    pub max_udp_flows_per_tick: usize,
    pub max_tcp_streams_per_sandbox_per_tick: usize,
    pub max_udp_flows_per_sandbox_per_tick: usize,
    pub max_tcp_bytes_per_sandbox_per_tick: usize,
    pub max_udp_bytes_per_sandbox_per_tick: usize,
}

pub open spec fn default_budget() -> BridgeMaintenanceBudget {
    BridgeMaintenanceBudget {
        max_tcp_streams_per_tick: DEFAULT_MAX_TCP_BRIDGES_PER_TICK,
        max_udp_flows_per_tick: DEFAULT_MAX_UDP_BRIDGES_PER_TICK,
        max_tcp_streams_per_sandbox_per_tick: DEFAULT_MAX_TCP_BRIDGES_PER_SANDBOX_PER_TICK,
        max_udp_flows_per_sandbox_per_tick: DEFAULT_MAX_UDP_BRIDGES_PER_SANDBOX_PER_TICK,
        max_tcp_bytes_per_sandbox_per_tick: usize::MAX,
        max_udp_bytes_per_sandbox_per_tick: usize::MAX,
    }
}

impl Default for BridgeMaintenanceBudget {
    /// Bounded stream and flow counts per tick; bytes per sandbox unbounded.
    fn default() -> (budget: BridgeMaintenanceBudget)
        ensures
            budget == default_budget(),
    {
        BridgeMaintenanceBudget {
            max_tcp_streams_per_tick: DEFAULT_MAX_TCP_BRIDGES_PER_TICK,
            max_udp_flows_per_tick: DEFAULT_MAX_UDP_BRIDGES_PER_TICK,
            max_tcp_streams_per_sandbox_per_tick: DEFAULT_MAX_TCP_BRIDGES_PER_SANDBOX_PER_TICK,
            max_udp_flows_per_sandbox_per_tick: DEFAULT_MAX_UDP_BRIDGES_PER_SANDBOX_PER_TICK,
            max_tcp_bytes_per_sandbox_per_tick: usize::MAX,
            max_udp_bytes_per_sandbox_per_tick: usize::MAX,
        }
    }
}

/// Counters of one pass that reads host UDP replies into the device.
#[derive(Clone, Copy, Debug, PartialEq, Eq, Structural)]
pub struct UdpBridgeReadOutcome {
    pub udp_flows_read: usize,
    pub udp_bytes_read_from_egress: usize,
    pub udp_flows_removed_on_error: usize,
    pub outbound_packets_written: usize,
}

/// Counters of one pass that reads host TCP bytes into the stack.
#[derive(Clone, Copy, Debug, PartialEq, Eq, Structural)]
pub struct StackBridgeReadOutcome {
    pub tcp_streams_read: usize,
    pub tcp_bytes_read_from_egress: usize,
    pub tcp_bytes_enqueued_to_stack: usize,
    pub outbound_packets_written: usize,
}

/// Counters of one bridge maintenance pass, or their sum over several.
#[derive(Clone, Copy, Debug, PartialEq, Eq, Structural)]
pub struct BridgeMaintenanceOutcome {
    pub tcp_pending_bytes_written_to_egress: usize,
    pub tcp_streams_read: usize,
    pub tcp_bytes_read_from_egress: usize,
    pub tcp_bytes_enqueued_to_stack: usize,
    pub udp_flows_read: usize,
    pub udp_bytes_read_from_egress: usize,
    pub udp_flows_removed_on_error: usize,
    pub udp_flows_expired: usize,
    pub outbound_packets_written: usize,
}

/// Field-wise sum of two outcomes, over the integers.
pub open spec fn outcome_sum(a: BridgeMaintenanceOutcome, b: BridgeMaintenanceOutcome) -> (
    int,
    int,
    int,
    int,
    int,
    int,
    int,
    int,
    int,
) {
    (
        a.tcp_pending_bytes_written_to_egress + b.tcp_pending_bytes_written_to_egress,
        a.tcp_streams_read + b.tcp_streams_read,
        a.tcp_bytes_read_from_egress + b.tcp_bytes_read_from_egress,
        a.tcp_bytes_enqueued_to_stack + b.tcp_bytes_enqueued_to_stack,
        a.udp_flows_read + b.udp_flows_read,
        a.udp_bytes_read_from_egress + b.udp_bytes_read_from_egress,
        a.udp_flows_removed_on_error + b.udp_flows_removed_on_error,
        a.udp_flows_expired + b.udp_flows_expired,
        a.outbound_packets_written + b.outbound_packets_written,
    )
}

/// The counters of `o` as integers.
pub open spec fn outcome_fields(o: BridgeMaintenanceOutcome) -> (
    int,
    int,
    int,
    int,
    int,
    int,
    int,
    int,
    int,
) {
    (
        o.tcp_pending_bytes_written_to_egress as int,
        o.tcp_streams_read as int,
        o.tcp_bytes_read_from_egress as int,
        o.tcp_bytes_enqueued_to_stack as int,
        o.udp_flows_read as int,
        o.udp_bytes_read_from_egress as int,
        o.udp_flows_removed_on_error as int,
        o.udp_flows_expired as int,
        o.outbound_packets_written as int,
    )
}

/// Whether every field of the sum of `a` and `b` fits in a `usize`.
pub open spec fn sum_fits(a: BridgeMaintenanceOutcome, b: BridgeMaintenanceOutcome) -> bool {
    let s = outcome_sum(a, b);
    &&& s.0 <= usize::MAX
    &&& s.1 <= usize::MAX
    &&& s.2 <= usize::MAX
    &&& s.3 <= usize::MAX
    &&& s.4 <= usize::MAX
    &&& s.5 <= usize::MAX
    &&& s.6 <= usize::MAX
    &&& s.7 <= usize::MAX
    &&& s.8 <= usize::MAX
}

impl Default for BridgeMaintenanceOutcome {
    /// All counters zero.
    fn default() -> (outcome: BridgeMaintenanceOutcome)
        ensures
            outcome == zero_outcome(),
    {
        BridgeMaintenanceOutcome {
            tcp_pending_bytes_written_to_egress: 0,
            tcp_streams_read: 0,
            tcp_bytes_read_from_egress: 0,
            tcp_bytes_enqueued_to_stack: 0,
            udp_flows_read: 0,
            udp_bytes_read_from_egress: 0,
            udp_flows_removed_on_error: 0,
            udp_flows_expired: 0,
            outbound_packets_written: 0,
        }
    }
}

impl BridgeMaintenanceOutcome {
    /// Whether every counter of `other` can be added to this outcome
    /// without overflow.
    pub fn can_accumulate(&self, other: &BridgeMaintenanceOutcome) -> (fits: bool)
        ensures
            fits == sum_fits(*self, *other),
    {
        self.tcp_pending_bytes_written_to_egress.checked_add(
            other.tcp_pending_bytes_written_to_egress,
        ).is_some() && self.tcp_streams_read.checked_add(other.tcp_streams_read).is_some()
            && self.tcp_bytes_read_from_egress.checked_add(other.tcp_bytes_read_from_egress).is_some()
            && self.tcp_bytes_enqueued_to_stack.checked_add(other.tcp_bytes_enqueued_to_stack).is_some()
            && self.udp_flows_read.checked_add(other.udp_flows_read).is_some()
            && self.udp_bytes_read_from_egress.checked_add(other.udp_bytes_read_from_egress).is_some()
            && self.udp_flows_removed_on_error.checked_add(other.udp_flows_removed_on_error).is_some()
            && self.udp_flows_expired.checked_add(other.udp_flows_expired).is_some()
            && self.outbound_packets_written.checked_add(other.outbound_packets_written).is_some()
    }

    /// Adds every counter of `other` to this outcome.
    pub fn accumulate(&mut self, other: &BridgeMaintenanceOutcome)
        requires
            sum_fits(*old(self), *other),
        ensures
            outcome_fields(*final(self)) == outcome_sum(*old(self), *other),
    {
        self.tcp_pending_bytes_written_to_egress = self.tcp_pending_bytes_written_to_egress
            + other.tcp_pending_bytes_written_to_egress;
        self.tcp_streams_read = self.tcp_streams_read + other.tcp_streams_read;
        self.tcp_bytes_read_from_egress = self.tcp_bytes_read_from_egress
            + other.tcp_bytes_read_from_egress;
        self.tcp_bytes_enqueued_to_stack = self.tcp_bytes_enqueued_to_stack
            + other.tcp_bytes_enqueued_to_stack;
        self.udp_flows_read = self.udp_flows_read + other.udp_flows_read;
        self.udp_bytes_read_from_egress = self.udp_bytes_read_from_egress
            + other.udp_bytes_read_from_egress;
        self.udp_flows_removed_on_error = self.udp_flows_removed_on_error
            + other.udp_flows_removed_on_error;
        self.udp_flows_expired = self.udp_flows_expired + other.udp_flows_expired;
        self.outbound_packets_written = self.outbound_packets_written
            + other.outbound_packets_written;
    }
}

/// Accumulating outcome `b` and then `c` onto `a` gives the same counters
/// as accumulating `c` and then `b`: the order in which ticks are summed
/// does not matter.
pub proof fn lemma_accumulate_order_independent(
    a: BridgeMaintenanceOutcome,
    b: BridgeMaintenanceOutcome,
    c: BridgeMaintenanceOutcome,
    ab: BridgeMaintenanceOutcome,
    abc: BridgeMaintenanceOutcome,
    ac: BridgeMaintenanceOutcome,
    acb: BridgeMaintenanceOutcome,
)
    requires
        outcome_fields(ab) == outcome_sum(a, b),
        outcome_fields(abc) == outcome_sum(ab, c),
        outcome_fields(ac) == outcome_sum(a, c),
        outcome_fields(acb) == outcome_sum(ac, b),
    ensures
        abc == acb,
{
}

/// Accumulating the all-zero outcome changes nothing.
pub proof fn lemma_accumulate_zero_identity(a: BridgeMaintenanceOutcome, b: BridgeMaintenanceOutcome)
    requires
        outcome_fields(b) == outcome_sum(a, zero_outcome()),
    ensures
        b == a,
{
}

pub open spec fn zero_outcome() -> BridgeMaintenanceOutcome {
    BridgeMaintenanceOutcome {
        tcp_pending_bytes_written_to_egress: 0,
        tcp_streams_read: 0,
        tcp_bytes_read_from_egress: 0,
        tcp_bytes_enqueued_to_stack: 0,
        udp_flows_read: 0,
        udp_bytes_read_from_egress: 0,
        udp_flows_removed_on_error: 0,
        udp_flows_expired: 0,
        outbound_packets_written: 0,
    }
}

// ---------------------------------------------------------------------------
// One tick and the loop around it.

/// What the audit of the packet a tick ingested consumed: broker outcomes,
/// transparent inspection events, and flow-closed events each take one
/// audit sequence number.
#[derive(Clone, Copy, Debug, PartialEq, Eq, Structural)]
pub struct StackPacketAudit {
    pub broker_outcomes: usize,
    pub transparent_inspection_events: usize,
    pub flow_closed_events: usize,
}

/// Result of one nonblocking runtime tick: the packet it ingested, if one
/// was ready, and the bridge maintenance it always runs.
#[derive(Clone, Copy, Debug, PartialEq, Eq, Structural)]
pub struct StackRuntimeTickOutcome {
    pub stack_packet: Option<StackPacketAudit>,
    pub maintenance: BridgeMaintenanceOutcome,
}

pub open spec fn sat_add_usize(a: int, b: int) -> int {
    if a + b > usize::MAX {
        usize::MAX as int
    } else {
        a + b
    }
}

pub open spec fn sat_add_u64(a: int, b: int) -> int {
    if a + b > u64::MAX {
        u64::MAX as int
    } else {
        a + b
    }
}

impl StackRuntimeTickOutcome {
    pub open spec fn made_progress_spec(&self) -> bool {
        ||| self.stack_packet is Some
        ||| self.maintenance.tcp_pending_bytes_written_to_egress > 0
        ||| self.maintenance.tcp_streams_read > 0
        ||| self.maintenance.udp_flows_read > 0
        ||| self.maintenance.udp_flows_removed_on_error > 0
        ||| self.maintenance.udp_flows_expired > 0
        ||| self.maintenance.outbound_packets_written > 0
    }

    pub open spec fn sequence_slots_spec(&self) -> u64 {
        match self.stack_packet {
            None => 0,
            Some(p) => sat_add_usize(
                sat_add_usize(p.broker_outcomes as int, p.transparent_inspection_events as int),
                p.flow_closed_events as int,
            ) as u64,
        }
    }

    /// Whether the tick ingested a packet or moved any bridge traffic.
    pub fn made_progress(&self) -> (progress: bool)
        ensures
            progress == self.made_progress_spec(),
    {
        self.stack_packet.is_some() || self.maintenance.tcp_pending_bytes_written_to_egress > 0
            || self.maintenance.tcp_streams_read > 0 || self.maintenance.udp_flows_read > 0
            || self.maintenance.udp_flows_removed_on_error > 0
            || self.maintenance.udp_flows_expired > 0
            || self.maintenance.outbound_packets_written > 0
    }

    /// Audit sequence numbers the tick's packet consumed (saturating).
    pub fn sequence_slots_used(&self) -> (slots: u64)
        ensures
            slots == self.sequence_slots_spec(),
    {
        match self.stack_packet {
            None => 0,
            Some(packet) => {
                let events = packet.broker_outcomes.saturating_add(
                    packet.transparent_inspection_events,
                ).saturating_add(packet.flow_closed_events);
                events as u64
            },
        }
    }
}

/// Limits and step sizes of a bounded runtime loop.
#[derive(Clone, Copy, Debug, PartialEq, Eq, Structural)]
pub struct StackRuntimeLoopConfig {
    pub max_ticks: usize,
    pub max_idle_ticks: Option<usize>,
    pub tick_millis: u64,
    pub max_tcp_read_bytes_per_stream: usize,
    pub max_udp_read_bytes_per_flow: usize,
    pub budget: BridgeMaintenanceBudget,
}

pub open spec fn default_loop_config() -> StackRuntimeLoopConfig {
    StackRuntimeLoopConfig {
        max_ticks: 1024,
        max_idle_ticks: None,
        tick_millis: 10,
        max_tcp_read_bytes_per_stream: 16384,
        max_udp_read_bytes_per_flow: 2048,
        budget: default_budget(),
    }
}

impl Default for StackRuntimeLoopConfig {
    /// 1024 ticks of 10 ms, no idle cutoff, 16 KiB per TCP stream read and
    /// 2 KiB per UDP flow read, default maintenance budget.
    fn default() -> (config: StackRuntimeLoopConfig)
        ensures
            config == default_loop_config(),
    {
        StackRuntimeLoopConfig {
            max_ticks: 1024,
            max_idle_ticks: None,
            tick_millis: 10,
            max_tcp_read_bytes_per_stream: 16 * 1024,
            max_udp_read_bytes_per_flow: 2048,
            budget: BridgeMaintenanceBudget::default(),
        }
    }
}

/// Progress of a bounded runtime loop.
#[derive(Clone, Copy, Debug, PartialEq, Eq, Structural)]
pub struct StackRuntimeLoopOutcome {
    pub ticks_run: usize,
    pub progress_ticks: usize,
    pub idle_ticks: usize,
    pub next_sequence: u64,
    pub next_timestamp_millis: u64,
    pub next_now_millis: u64,
    pub device_packets_processed: usize,
    pub maintenance: BridgeMaintenanceOutcome,
}

impl StackRuntimeLoopOutcome {
    /// Counters that every loop state satisfies: progress and the current
    /// idle streak never exceed the ticks run, nor do processed packets.
    pub open spec fn wf(&self) -> bool {
        &&& self.progress_ticks + self.idle_ticks <= self.ticks_run
        &&& self.device_packets_processed <= self.ticks_run
    }

    /// The state before the first tick.
    pub fn start(sequence: u64, timestamp_millis: u64, now_millis: u64) -> (outcome:
        StackRuntimeLoopOutcome)
        ensures
            outcome == (StackRuntimeLoopOutcome {
                ticks_run: 0,
                progress_ticks: 0,
                idle_ticks: 0,
                next_sequence: sequence,
                next_timestamp_millis: timestamp_millis,
                next_now_millis: now_millis,
                device_packets_processed: 0,
                maintenance: zero_outcome(),
            }),
            outcome.wf(),
    {
        StackRuntimeLoopOutcome {
            ticks_run: 0,
            progress_ticks: 0,
            idle_ticks: 0,
            next_sequence: sequence,
            next_timestamp_millis: timestamp_millis,
            next_now_millis: now_millis,
            device_packets_processed: 0,
            maintenance: BridgeMaintenanceOutcome::default(),
        }
    }

    /// Records one finished tick and says whether the loop stops: it stops
    /// after an idle tick that brings the idle streak to the configured
    /// maximum. The audit sequence advances by the slots the tick used (at
    /// least one) and both clocks by one tick, all saturating.
    pub fn record_tick(&mut self, config: &StackRuntimeLoopConfig, tick: &StackRuntimeTickOutcome) -> (stop: bool)
        requires
            old(self).wf(),
            old(self).ticks_run < usize::MAX,
            sum_fits(old(self).maintenance, tick.maintenance),
        ensures
            final(self).wf(),
            final(self).ticks_run == old(self).ticks_run + 1,
            final(self).device_packets_processed == old(self).device_packets_processed + (
            if tick.stack_packet is Some {
                1int
            } else {
                0int
            }),
            outcome_fields(final(self).maintenance) == outcome_sum(
                old(self).maintenance,
                tick.maintenance,
            ),
            final(self).next_sequence == sat_add_u64(
                old(self).next_sequence as int,
                if tick.sequence_slots_spec() == 0 {
                    1int
                } else {
                    tick.sequence_slots_spec() as int
                },
            ),
            final(self).next_timestamp_millis == sat_add_u64(
                old(self).next_timestamp_millis as int,
                config.tick_millis as int,
            ),
            final(self).next_now_millis == sat_add_u64(
                old(self).next_now_millis as int,
                config.tick_millis as int,
            ),
            tick.made_progress_spec() ==> final(self).progress_ticks == old(self).progress_ticks + 1
                && final(self).idle_ticks == 0 && !stop,
            !tick.made_progress_spec() ==> final(self).progress_ticks == old(self).progress_ticks
                && final(self).idle_ticks == old(self).idle_ticks + 1 && stop == (
            match config.max_idle_ticks {
                Some(max_idle) => final(self).idle_ticks >= max_idle,
                None => false,
            }),
    {
        self.ticks_run = self.ticks_run + 1;
        if tick.stack_packet.is_some() {
            self.device_packets_processed = self.device_packets_processed + 1;
        }
        self.maintenance.accumulate(&tick.maintenance);
        let used = tick.sequence_slots_used();
        let slots = if used == 0 {
            1
        } else {
            used
        };
        self.next_sequence = self.next_sequence.saturating_add(slots);
        self.next_timestamp_millis = self.next_timestamp_millis.saturating_add(config.tick_millis);
        self.next_now_millis = self.next_now_millis.saturating_add(config.tick_millis);
        if tick.made_progress() {
            self.progress_ticks = self.progress_ticks + 1;
            self.idle_ticks = 0;
            false
        } else {
            self.idle_ticks = self.idle_ticks + 1;
            match config.max_idle_ticks {
                Some(max_idle) => self.idle_ticks >= max_idle,
                None => false,
            }
        }
    }
}

} // verus!
