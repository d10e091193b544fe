use foxprox::helper::{
    parse_fd, parse_setup_args, parse_u16, run_setup, setup_step, ParseError, SetupAction,
    SetupArgs, SetupBackend, SetupError, SetupEvent, SetupHandoff, SetupPhase, TunDeviceConfig,
};
use foxprox::model::IpAddress;
use foxprox::setup::{drop_cap_net_admin, CapData, CapDropAction, CapDropError, CapDropEvent, CapDropState};

fn parse(args: Vec<String>) -> Result<SetupArgs, ParseError> {
    parse_setup_args(args)
}

fn valid_args() -> Vec<String> {
    [
        "--sandbox-id",
        "setup-test",
        "--tun-name",
        "foxprox0",
        "--sandbox-ip",
        "10.66.0.2",
        "--broker-ip",
        "10.66.0.1",
        "--mtu",
        "1500",
        "--dns",
        "10.66.0.1",
        "--proxy-ip",
        "10.66.0.1",
        "--http-proxy-port",
        "3128",
        "--socks-proxy-port",
        "1080",
        "--handoff-fd",
        "3",
        "--",
        "curl",
        "http://example.com",
    ]
    .into_iter()
    .map(str::to_string)
    .collect()
}

#[test]
fn parses_bwrap_planned_setup_arguments() {
    let parsed = parse(valid_args()).unwrap();
    assert_eq!(parsed.sandbox_id.as_str(), "setup-test");
    assert_eq!(parsed.tun.name, "foxprox0");
    assert_eq!(parsed.handoff, SetupHandoff::Fd(3));
    assert_eq!(parsed.target, ["curl", "http://example.com"]);
    assert_eq!(parsed.proxy_listener.unwrap().http_port, Some(3128));
}

#[test]
fn parses_socket_handoff_arguments_for_bwrap_without_fd_preservation() {
    let mut args = valid_args();
    args.retain(|arg| arg != "--handoff-fd" && arg != "3");
    let separator = args.iter().position(|arg| arg == "--").unwrap();
    args.splice(
        separator..separator,
        [
            "--handoff-socket".to_string(),
            "/tmp/foxprox.sock".to_string(),
        ],
    );

    let parsed = parse(args).unwrap();

    assert_eq!(
        parsed.handoff,
        SetupHandoff::UnixSocket("/tmp/foxprox.sock".to_string())
    );
    assert_eq!(parsed.setup_plan().tun_handoff_fd, 0);
}

#[test]
fn parser_rejects_conflicting_handoff_arguments() {
    let mut args = valid_args();
    let separator = args.iter().position(|arg| arg == "--").unwrap();
    args.splice(
        separator..separator,
        [
            "--handoff-socket".to_string(),
            "/tmp/foxprox.sock".to_string(),
        ],
    );

    assert_eq!(parse(args), Err(ParseError::ConflictingHandoff));
}

#[test]
fn parser_requires_target_separator_and_handoff_fd() {
    let mut args = valid_args();
    args.retain(|arg| arg != "--handoff-fd" && arg != "3");
    assert_eq!(
        parse(args),
        Err(ParseError::MissingRequired { field: "handoff" })
    );
}

#[test]
fn parser_reports_flag_errors_in_argument_order() {
    let mut args = valid_args();
    args[5] = "not-an-ip".to_string();
    args[9] = "70000".to_string();
    assert_eq!(
        parse(args),
        Err(ParseError::InvalidIp {
            flag: "--sandbox-ip".to_string(),
            value: "not-an-ip".to_string()
        })
    );

    let mut args = valid_args();
    args[9] = "70000".to_string();
    assert_eq!(
        parse(args),
        Err(ParseError::InvalidU16 {
            flag: "--mtu".to_string(),
            value: "70000".to_string()
        })
    );

    let mut args = valid_args();
    args.insert(0, "--bogus".to_string());
    assert_eq!(
        parse(args),
        Err(ParseError::UnknownFlag {
            flag: "--bogus".to_string()
        })
    );

    assert_eq!(
        parse(vec!["--tun-name".to_string()]),
        Err(ParseError::MissingValue {
            flag: "--tun-name".to_string()
        })
    );
}

#[test]
fn parser_requires_target_and_then_fields_in_order() {
    let mut args = valid_args();
    args.truncate(20);
    assert_eq!(parse(args), Err(ParseError::TargetMissing));

    let args: Vec<String> = ["--http-proxy-port", "3128", "--", "true"]
        .into_iter()
        .map(str::to_string)
        .collect();
    assert_eq!(
        parse(args),
        Err(ParseError::MissingRequired { field: "proxy-ip" })
    );

    let args: Vec<String> = ["--", "true"].into_iter().map(str::to_string).collect();
    assert_eq!(
        parse(args),
        Err(ParseError::MissingRequired {
            field: "sandbox-id"
        })
    );
}

#[test]
fn later_flags_override_earlier_ones() {
    let mut args = valid_args();
    let separator = args.iter().position(|arg| arg == "--").unwrap();
    args.splice(
        separator..separator,
        ["--mtu".to_string(), "+1280".to_string()],
    );
    let parsed = parse(args).unwrap();
    assert_eq!(parsed.tun.mtu, 1280);
    assert_eq!(parsed.tun.sandbox_ip, IpAddress::V4(0x0a42_0002));
}

#[test]
fn decimal_values_follow_std_parsing() {
    assert_eq!(parse_u16("--mtu", "65535".to_string()), Ok(65535));
    assert_eq!(parse_u16("--mtu", "+7".to_string()), Ok(7));
    assert_eq!(parse_u16("--mtu", "007".to_string()), Ok(7));
    for bad in ["", "+", "-1", "65536", "1.5", " 1"] {
        assert_eq!(
            parse_u16("--mtu", bad.to_string()),
            Err(ParseError::InvalidU16 {
                flag: "--mtu".to_string(),
                value: bad.to_string()
            }),
            "{bad}"
        );
        assert_eq!(bad.parse::<u16>().ok(), None);
    }
    assert_eq!(parse_fd("-2147483648".to_string()), Ok(i32::MIN));
    assert_eq!(parse_fd("2147483647".to_string()), Ok(i32::MAX));
    assert_eq!(parse_fd("-0".to_string()), Ok(0));
    for bad in ["2147483648", "-2147483649", "-", "x"] {
        assert_eq!(
            parse_fd(bad.to_string()),
            Err(ParseError::InvalidFd {
                value: bad.to_string()
            })
        );
    }
}

#[derive(Default)]
struct FakeBackend {
    calls: Vec<String>,
    fail_handoff: bool,
}

fn show(ip: IpAddress) -> String {
    match ip {
        IpAddress::V4(v) => {
            let [a, b, c, d] = v.to_be_bytes();
            format!("{a}.{b}.{c}.{d}")
        }
        IpAddress::V6(v) => format!("{v:x}"),
    }
}

impl SetupBackend for FakeBackend {
    fn create_tun(&mut self, name: &str) -> Result<i32, SetupError> {
        self.calls.push(format!("create:{name}"));
        Ok(9)
    }

    fn configure_tun(&mut self, config: &TunDeviceConfig) -> Result<(), SetupError> {
        self.calls.push(format!("configure:{}", config.name));
        Ok(())
    }

    fn configure_dns(&mut self, resolver: IpAddress) -> Result<(), SetupError> {
        self.calls.push(format!("dns:{}", show(resolver)));
        Ok(())
    }

    fn handoff_tun_fd(&mut self, handoff_fd: i32, tun_fd: i32) -> Result<(), SetupError> {
        self.calls.push(format!("handoff:{handoff_fd}:{tun_fd}"));
        if self.fail_handoff {
            return Err(SetupError::Handoff("simulated".to_string()));
        }
        Ok(())
    }

    fn handoff_tun_socket(&mut self, path: &str, tun_fd: i32) -> Result<(), SetupError> {
        self.calls.push(format!("handoff-socket:{path}:{tun_fd}"));
        if self.fail_handoff {
            return Err(SetupError::Handoff("simulated".to_string()));
        }
        Ok(())
    }

    fn drop_setup_privileges(&mut self) -> Result<(), SetupError> {
        self.calls.push("drop-caps".to_string());
        Ok(())
    }

    fn exec_target(&mut self, target: &Vec<String>) -> Result<(), SetupError> {
        self.calls.push(format!("exec:{}", target.join(" ")));
        Ok(())
    }
}

#[test]
fn run_setup_orders_create_configure_handoff_before_exec() {
    let args = parse(valid_args()).unwrap();
    let mut backend = FakeBackend::default();
    run_setup(&args, Ok(()), &mut backend).unwrap();

    assert_eq!(
        backend.calls,
        [
            "create:foxprox0",
            "configure:foxprox0",
            "dns:10.66.0.1",
            "handoff:3:9",
            "drop-caps",
            "exec:curl http://example.com"
        ]
    );
}

#[test]
fn run_setup_can_handoff_to_socket_path_before_dropping_caps() {
    let mut args = valid_args();
    args.retain(|arg| arg != "--handoff-fd" && arg != "3");
    let separator = args.iter().position(|arg| arg == "--").unwrap();
    args.splice(
        separator..separator,
        [
            "--handoff-socket".to_string(),
            "/tmp/foxprox.sock".to_string(),
        ],
    );
    let args = parse(args).unwrap();
    let mut backend = FakeBackend::default();

    run_setup(&args, Ok(()), &mut backend).unwrap();

    assert_eq!(
        backend.calls,
        [
            "create:foxprox0",
            "configure:foxprox0",
            "dns:10.66.0.1",
            "handoff-socket:/tmp/foxprox.sock:9",
            "drop-caps",
            "exec:curl http://example.com"
        ]
    );
}

#[test]
fn run_setup_does_not_exec_when_handoff_fails() {
    let args = parse(valid_args()).unwrap();
    let mut backend = FakeBackend {
        fail_handoff: true,
        ..FakeBackend::default()
    };
    assert!(matches!(
        run_setup(&args, Ok(()), &mut backend),
        Err(SetupError::Handoff(_))
    ));
    assert_eq!(
        backend.calls.last().map(String::as_str),
        Some("handoff:3:9")
    );
}

#[test]
fn run_setup_stops_before_any_operation_when_the_plan_is_invalid() {
    let args = parse(valid_args()).unwrap();
    let mut backend = FakeBackend::default();
    assert!(matches!(
        run_setup(&args, Err(SetupError::InvalidPlan("mtu".to_string())), &mut backend),
        Err(SetupError::InvalidPlan(_))
    ));
    assert!(backend.calls.is_empty());
}

fn sets(bit: u32) -> [CapData; 2] {
    [
        CapData {
            effective: bit,
            permitted: bit,
            inheritable: bit,
        },
        CapData {
            effective: 0,
            permitted: 0,
            inheritable: 0,
        },
    ]
}

#[test]
fn cap_drop_reads_clears_verifies_then_lowers() {
    let bit = 1u32 << 12;
    let (state, action) = drop_cap_net_admin(CapDropState::Start, CapDropEvent::Begin);
    assert_eq!(action, CapDropAction::Capget);
    let (state, action) = drop_cap_net_admin(state, CapDropEvent::Read(sets(bit | 1)));
    assert_eq!(action, CapDropAction::Capset(sets(1)));
    let (state, action) = drop_cap_net_admin(state, CapDropEvent::Written);
    assert_eq!(action, CapDropAction::Capget);
    let (state, action) = drop_cap_net_admin(state, CapDropEvent::Read(sets(1)));
    assert_eq!(action, CapDropAction::LowerBoundingAndAmbient);
    let (state, action) = drop_cap_net_admin(state, CapDropEvent::Lowered);
    assert_eq!(action, CapDropAction::Finish(Ok(())));
    assert_eq!(state, CapDropState::Done);
}

#[test]
fn cap_drop_fails_closed_when_capability_remains() {
    let bit = 1u32 << 12;
    let (state, _) = drop_cap_net_admin(CapDropState::Start, CapDropEvent::Begin);
    let (state, _) = drop_cap_net_admin(state, CapDropEvent::Read(sets(bit)));
    let (state, _) = drop_cap_net_admin(state, CapDropEvent::Written);
    let (state, action) = drop_cap_net_admin(state, CapDropEvent::Read(sets(bit)));
    assert_eq!(action, CapDropAction::Finish(Err(CapDropError::StillPresent)));
    assert_eq!(state, CapDropState::Done);

    let (state, _) = drop_cap_net_admin(CapDropState::Start, CapDropEvent::Begin);
    let (_, action) = drop_cap_net_admin(state, CapDropEvent::Failed(1));
    assert_eq!(action, CapDropAction::Finish(Err(CapDropError::Os(1))));
}

#[test]
fn setup_steps_stop_at_first_failure() {
    let (phase, action) = setup_step(SetupPhase::Start, SetupEvent::Begin);
    assert_eq!(action, SetupAction::CreateTun);
    let (phase, action) = setup_step(phase, SetupEvent::TunCreated(9));
    assert_eq!(action, SetupAction::ConfigureTun);
    let (phase, action) = setup_step(phase, SetupEvent::Succeeded);
    assert_eq!(action, SetupAction::ConfigureDns);
    let (phase, action) = setup_step(phase, SetupEvent::Succeeded);
    assert_eq!(action, SetupAction::HandOff(9));
    let (failed, action) = setup_step(phase, SetupEvent::Failed);
    assert_eq!((failed, action), (SetupPhase::Done, SetupAction::Finish));
    let (phase, action) = setup_step(phase, SetupEvent::Succeeded);
    assert_eq!(action, SetupAction::DropPrivileges);
    let (phase, action) = setup_step(phase, SetupEvent::Succeeded);
    assert_eq!(action, SetupAction::ExecTarget);
    let (phase, action) = setup_step(phase, SetupEvent::Succeeded);
    assert_eq!((phase, action), (SetupPhase::Done, SetupAction::Finish));
}

#[test]
fn setup_args_read_ipv6_addresses_with_the_standard_parser() {
    let mut args = valid_args();
    let dns = args.iter().position(|a| a == "--dns").unwrap();
    args[dns + 1] = "fd00::1".to_string();
    let parsed = parse(args).unwrap();
    assert_eq!(parsed.dns_resolver, IpAddress::V6(0xfd00_0000_0000_0000_0000_0000_0000_0001));
}

#[test]
fn setup_args_reject_an_address_that_does_not_parse() {
    let mut args = valid_args();
    let ip = args.iter().position(|a| a == "--sandbox-ip").unwrap();
    args[ip + 1] = "10.66.0.300".to_string();
    assert!(parse(args).is_err());
}
