use foxprox::runtime::{
    BridgeMaintenanceBudget, BridgeMaintenanceOutcome, StackPacketAudit, StackRuntimeLoopConfig,
    StackRuntimeLoopOutcome, StackRuntimeTickOutcome,
};

fn maintenance(udp_flows_read: usize, outbound: usize) -> BridgeMaintenanceOutcome {
    BridgeMaintenanceOutcome {
        udp_flows_read,
        outbound_packets_written: outbound,
        ..BridgeMaintenanceOutcome::default()
    }
}

#[test]
fn defaults_are_bounded() {
    let budget = BridgeMaintenanceBudget::default();
    assert_eq!(budget.max_tcp_streams_per_tick, 64);
    assert_eq!(budget.max_udp_flows_per_tick, 64);
    assert_eq!(budget.max_tcp_streams_per_sandbox_per_tick, 16);
    assert_eq!(budget.max_udp_flows_per_sandbox_per_tick, 16);
    assert_eq!(budget.max_tcp_bytes_per_sandbox_per_tick, usize::MAX);
    let config = StackRuntimeLoopConfig::default();
    assert_eq!(config.max_ticks, 1024);
    assert_eq!(config.max_idle_ticks, None);
    assert_eq!(config.tick_millis, 10);
    assert_eq!(config.max_tcp_read_bytes_per_stream, 16 * 1024);
    assert_eq!(config.max_udp_read_bytes_per_flow, 2048);
    assert_eq!(config.budget, budget);
}

#[test]
fn accumulate_adds_every_counter() {
    let mut total = BridgeMaintenanceOutcome {
        tcp_pending_bytes_written_to_egress: 1,
        tcp_streams_read: 2,
        tcp_bytes_read_from_egress: 3,
        tcp_bytes_enqueued_to_stack: 4,
        udp_flows_read: 5,
        udp_bytes_read_from_egress: 6,
        udp_flows_removed_on_error: 7,
        udp_flows_expired: 8,
        outbound_packets_written: 9,
    };
    let step = total;
    total.accumulate(&step);
    assert_eq!(total.tcp_pending_bytes_written_to_egress, 2);
    assert_eq!(total.udp_flows_expired, 16);
    assert_eq!(total.outbound_packets_written, 18);
    let before = total;
    total.accumulate(&BridgeMaintenanceOutcome::default());
    assert_eq!(total, before);
}

#[test]
fn tick_progress_and_sequence_slots() {
    let idle = StackRuntimeTickOutcome {
        stack_packet: None,
        maintenance: BridgeMaintenanceOutcome::default(),
    };
    assert!(!idle.made_progress());
    assert_eq!(idle.sequence_slots_used(), 0);
    let packet = StackRuntimeTickOutcome {
        stack_packet: Some(StackPacketAudit {
            broker_outcomes: 2,
            transparent_inspection_events: 1,
            flow_closed_events: 1,
        }),
        maintenance: BridgeMaintenanceOutcome::default(),
    };
    assert!(packet.made_progress());
    assert_eq!(packet.sequence_slots_used(), 4);
    let saturated = StackRuntimeTickOutcome {
        stack_packet: Some(StackPacketAudit {
            broker_outcomes: usize::MAX,
            transparent_inspection_events: 1,
            flow_closed_events: 0,
        }),
        maintenance: BridgeMaintenanceOutcome::default(),
    };
    assert_eq!(saturated.sequence_slots_used(), usize::MAX as u64);
    let maintained = StackRuntimeTickOutcome {
        stack_packet: None,
        maintenance: maintenance(1, 0),
    };
    assert!(maintained.made_progress());
}

#[test]
fn stack_runtime_loop_runs_until_idle_after_progress() {
    let config = StackRuntimeLoopConfig {
        max_idle_ticks: Some(2),
        ..StackRuntimeLoopConfig::default()
    };
    let mut outcome = StackRuntimeLoopOutcome::start(100, 1_000, 5_000);
    let busy = StackRuntimeTickOutcome {
        stack_packet: Some(StackPacketAudit {
            broker_outcomes: 1,
            transparent_inspection_events: 0,
            flow_closed_events: 0,
        }),
        maintenance: maintenance(1, 1),
    };
    let idle = StackRuntimeTickOutcome {
        stack_packet: None,
        maintenance: BridgeMaintenanceOutcome::default(),
    };

    assert!(!outcome.record_tick(&config, &busy));
    assert!(!outcome.record_tick(&config, &idle));
    assert!(outcome.record_tick(&config, &idle));

    assert_eq!(outcome.ticks_run, 3);
    assert_eq!(outcome.progress_ticks, 1);
    assert_eq!(outcome.idle_ticks, 2);
    assert_eq!(outcome.device_packets_processed, 1);
    assert_eq!(outcome.next_sequence, 103);
    assert_eq!(outcome.next_timestamp_millis, 1_030);
    assert_eq!(outcome.next_now_millis, 5_030);
    assert_eq!(outcome.maintenance.udp_flows_read, 1);
    assert_eq!(outcome.maintenance.outbound_packets_written, 1);
}

#[test]
fn progress_resets_the_idle_streak_and_clocks_saturate() {
    let config = StackRuntimeLoopConfig {
        max_idle_ticks: Some(2),
        tick_millis: u64::MAX,
        ..StackRuntimeLoopConfig::default()
    };
    let mut outcome = StackRuntimeLoopOutcome::start(u64::MAX, 1, 1);
    let idle = StackRuntimeTickOutcome {
        stack_packet: None,
        maintenance: BridgeMaintenanceOutcome::default(),
    };
    let busy = StackRuntimeTickOutcome {
        stack_packet: None,
        maintenance: maintenance(0, 1),
    };
    assert!(!outcome.record_tick(&config, &idle));
    assert!(!outcome.record_tick(&config, &busy));
    assert_eq!(outcome.idle_ticks, 0);
    assert!(!outcome.record_tick(&config, &idle));
    assert_eq!(outcome.next_sequence, u64::MAX);
    assert_eq!(outcome.next_now_millis, u64::MAX);
}
