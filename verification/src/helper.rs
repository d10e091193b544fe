//! The setup helper that runs inside the sandbox network namespace: its
//! command line (which flags set which field, how values are parsed, which
//! missing or conflicting fields are refused) and the order of its steps,
//! which never runs the target command unless every earlier step succeeded.
//!
//! IP address values are parsed by the caller; the parser receives, for
//! each argument, the address it denotes, if any.

use crate::model::{IpAddress, SandboxId};
use vstd::prelude::*;
use vstd::string::StrSliceExecFns;

verus! {

// ---------------------------------------------------------------------------
// Decimal numbers.

pub open spec fn is_digit(c: char) -> bool {
    '0' <= c && c <= '9'
}

pub open spec fn all_digits(d: Seq<char>) -> bool {
    forall|i: int| 0 <= i < d.len() ==> is_digit(#[trigger] d[i])
}

/// Value of the decimal digits `d`.
pub open spec fn digits_value(d: Seq<char>) -> int
    decreases d.len(),
{
    if d.len() == 0 {
        0
    } else {
        digits_value(d.drop_last()) * 10 + (d.last() as int - '0' as int)
    }
}

/// The digits of an unsigned number: one leading `+` is allowed.
pub open spec fn unsigned_digits(s: Seq<char>) -> Seq<char> {
    if s.len() > 0 && s[0] == '+' {
        s.subrange(1, s.len() as int)
    } else {
        s
    }
}

/// A `u16` written in decimal, as Rust's `u16::from_str` reads it.
pub open spec fn u16_value(s: Seq<char>) -> Option<u16> {
    let d = unsigned_digits(s);
    if d.len() > 0 && all_digits(d) && digits_value(d) <= 0xffff {
        Some(digits_value(d) as u16)
    } else {
        None
    }
}

/// An `i32` written in decimal, as Rust's `i32::from_str` reads it: one
/// leading sign is allowed.
pub open spec fn i32_value(s: Seq<char>) -> Option<i32> {
    let negative = s.len() > 0 && s[0] == '-';
    let d = if s.len() > 0 && (s[0] == '+' || s[0] == '-') {
        s.subrange(1, s.len() as int)
    } else {
        s
    };
    if d.len() == 0 || !all_digits(d) {
        None
    } else if negative {
        if digits_value(d) <= 0x8000_0000 {
            Some((-digits_value(d)) as i32)
        } else {
            None
        }
    } else if digits_value(d) <= 0x7fff_ffff {
        Some(digits_value(d) as i32)
    } else {
        None
    }
}

proof fn lemma_digits_value_nonneg(d: Seq<char>)
    requires
        all_digits(d),
    ensures
        digits_value(d) >= 0,
    decreases d.len(),
{
    if d.len() > 0 {
        assert(is_digit(d[d.len() - 1]));
        lemma_digits_value_nonneg(d.drop_last());
    }
}

/// Appending digits never lowers the value.
proof fn lemma_digits_value_prefix(d: Seq<char>, k: int)
    requires
        all_digits(d),
        0 <= k <= d.len(),
    ensures
        digits_value(d.subrange(0, k)) <= digits_value(d),
    decreases d.len(),
{
    if k < d.len() {
        assert(d.drop_last() =~= d.subrange(0, d.len() - 1));
        assert(all_digits(d.drop_last()));
        lemma_digits_value_prefix(d.drop_last(), k);
        assert(d.drop_last().subrange(0, k) =~= d.subrange(0, k));
        lemma_digits_value_nonneg(d.drop_last());
        assert(is_digit(d[d.len() - 1]));
    } else {
        assert(d.subrange(0, k) =~= d);
    }
}

/// Reads the decimal digits `s[from..]`; `None` when one is not a digit or
/// the value exceeds `bound`.
fn digits_at_most(s: &str, from: usize, bound: u64) -> (value: Option<u64>)
    requires
        from <= s@.len(),
        bound <= 0x1_0000_0000,
    ensures
        ({
            let d = s@.subrange(from as int, s@.len() as int);
            match value {
                Some(v) => all_digits(d) && digits_value(d) == v && v <= bound,
                None => !all_digits(d) || digits_value(d) > bound,
            }
        }),
{
    let len = s.unicode_len();
    let ghost d = s@.subrange(from as int, s@.len() as int);
    let mut acc: u64 = 0;
    let mut i: usize = from;
    while i < len
        invariant
            len == s@.len(),
            from <= i <= len,
            d == s@.subrange(from as int, s@.len() as int),
            bound <= 0x1_0000_0000,
            all_digits(d.subrange(0, i - from)),
            acc == digits_value(d.subrange(0, i - from)),
            acc <= bound,
        decreases len - i,
    {
        let c = s.get_char(i);
        let ghost prefix = d.subrange(0, i - from);
        let ghost next = d.subrange(0, i + 1 - from);
        proof {
            assert(next.drop_last() =~= prefix);
            assert(next.last() == c);
        }
        if !('0' <= c && c <= '9') {
            assert(!is_digit(d[i - from]));
            return None;
        }
        let digit = (c as u32 - '0' as u32) as u64;
        let next_acc = acc * 10 + digit;
        proof {
            assert(all_digits(next)) by {
                assert forall|j: int| 0 <= j < next.len() implies is_digit(#[trigger] next[j]) by {
                    if j < prefix.len() {
                        assert(next[j] == prefix[j]);
                    }
                }
            }
        }
        if next_acc > bound {
            proof {
                assert(all_digits(d) ==> digits_value(d) > bound) by {
                    if all_digits(d) {
                        lemma_digits_value_prefix(d, i + 1 - from);
                    }
                }
            }
            return None;
        }
        acc = next_acc;
        i = i + 1;
    }
    assert(d.subrange(0, len - from) =~= d);
    Some(acc)
}

// ---------------------------------------------------------------------------
// Parsed arguments.

/// TUN interface the helper creates inside the sandbox network namespace.
#[derive(Clone, Debug, PartialEq, Eq)]
pub struct TunDeviceConfig {
    pub name: String,
    pub sandbox_ip: IpAddress,
    pub broker_ip: IpAddress,
    pub mtu: u16,
}

/// Explicit proxy listener the sandbox is told about.
#[derive(Clone, Copy, Debug, PartialEq, Eq, Structural)]
pub struct ProxyListenerConfig {
    pub ip: IpAddress,
    pub http_port: Option<u16>,
    pub socks_port: Option<u16>,
}

/// How the TUN descriptor reaches the broker: over an inherited socket
/// descriptor, or over a Unix socket at a path.
#[derive(Clone, Debug, PartialEq, Eq)]
pub enum SetupHandoff {
    Fd(i32),
    UnixSocket(String),
}

#[derive(Clone, Debug, PartialEq, Eq)]
pub struct SetupArgs {
    pub sandbox_id: SandboxId,
    pub tun: TunDeviceConfig,
    pub dns_resolver: IpAddress,
    pub proxy_listener: Option<ProxyListenerConfig>,
    pub handoff: SetupHandoff,
    pub target: Vec<String>,
}

#[derive(Clone, Debug, PartialEq, Eq)]
pub enum ParseError {
    MissingValue { flag: String },
    UnknownFlag { flag: String },
    MissingRequired { field: &'static str },
    InvalidIp { flag: String, value: String },
    InvalidU16 { flag: String, value: String },
    InvalidFd { value: String },
    ConflictingHandoff,
    TargetMissing,
}

/// What the broker is told about a sandbox's setup.
#[derive(Clone, Debug, PartialEq, Eq)]
pub struct SetupPlan {
    pub sandbox_id: SandboxId,
    pub tun: TunDeviceConfig,
    pub dns_resolver: IpAddress,
    pub proxy_listener: Option<ProxyListenerConfig>,
    pub tun_handoff_fd: u32,
}

impl SetupArgs {
    /// The setup plan of these arguments; a socket-path handoff has no
    /// handoff descriptor and is recorded as descriptor 0.
    pub fn setup_plan(&self) -> (plan: SetupPlan)
        ensures
            plan.sandbox_id@ == self.sandbox_id@,
            plan.tun.name@ == self.tun.name@,
            plan.tun.sandbox_ip == self.tun.sandbox_ip,
            plan.tun.broker_ip == self.tun.broker_ip,
            plan.tun.mtu == self.tun.mtu,
            plan.dns_resolver == self.dns_resolver,
            plan.proxy_listener == self.proxy_listener,
            plan.tun_handoff_fd == (match self.handoff {
                SetupHandoff::Fd(fd) => fd as u32,
                SetupHandoff::UnixSocket(_) => 0u32,
            }),
    {
        SetupPlan {
            sandbox_id: self.sandbox_id.duplicate(),
            tun: TunDeviceConfig {
                name: self.tun.name.clone(),
                sandbox_ip: self.tun.sandbox_ip,
                broker_ip: self.tun.broker_ip,
                mtu: self.tun.mtu,
            },
            dns_resolver: self.dns_resolver,
            proxy_listener: self.proxy_listener,
            tun_handoff_fd: match &self.handoff {
                SetupHandoff::Fd(fd) => *fd as u32,
                SetupHandoff::UnixSocket(_) => 0,
            },
        }
    }
}

/// A parse error with its texts as character sequences.
pub enum ParseErrorView {
    MissingValue(Seq<char>),
    UnknownFlag(Seq<char>),
    MissingRequired(Seq<char>),
    InvalidIp(Seq<char>, Seq<char>),
    InvalidU16(Seq<char>, Seq<char>),
    InvalidFd(Seq<char>),
    ConflictingHandoff,
    TargetMissing,
}

impl View for ParseError {
    type V = ParseErrorView;

    open spec fn view(&self) -> ParseErrorView {
        match self {
            ParseError::MissingValue { flag } => ParseErrorView::MissingValue(flag@),
            ParseError::UnknownFlag { flag } => ParseErrorView::UnknownFlag(flag@),
            ParseError::MissingRequired { field } => ParseErrorView::MissingRequired(field@),
            ParseError::InvalidIp { flag, value } => ParseErrorView::InvalidIp(flag@, value@),
            ParseError::InvalidU16 { flag, value } => ParseErrorView::InvalidU16(flag@, value@),
            ParseError::InvalidFd { value } => ParseErrorView::InvalidFd(value@),
            ParseError::ConflictingHandoff => ParseErrorView::ConflictingHandoff,
            ParseError::TargetMissing => ParseErrorView::TargetMissing,
        }
    }
}

/// Parses the value of a port or MTU flag.
pub fn parse_u16(flag: &str, value: String) -> (result: Result<u16, ParseError>)
    ensures
        result is Ok <==> u16_value(value@) is Some,
        result matches Ok(n) ==> u16_value(value@) == Some(n),
        result matches Err(e) ==> e@ == ParseErrorView::InvalidU16(flag@, value@),
{
    let text = value.as_str();
    let len = text.unicode_len();
    let start: usize = if len > 0 && text.get_char(0) == '+' {
        1
    } else {
        0
    };
    if start == len {
        return Err(ParseError::InvalidU16 { flag: flag.to_owned(), value });
    }
    proof {
        if start == 0 {
            assert(value@.subrange(0, value@.len() as int) =~= value@);
        }
    }
    match digits_at_most(text, start, 0xffff) {
        Some(n) => Ok(n as u16),
        None => Err(ParseError::InvalidU16 { flag: flag.to_owned(), value }),
    }
}

/// Parses the value of `--handoff-fd`.
pub fn parse_fd(value: String) -> (result: Result<i32, ParseError>)
    ensures
        result is Ok <==> i32_value(value@) is Some,
        result matches Ok(n) ==> i32_value(value@) == Some(n),
        result matches Err(e) ==> e@ == ParseErrorView::InvalidFd(value@),
{
    let text = value.as_str();
    let len = text.unicode_len();
    let first = if len > 0 {
        text.get_char(0)
    } else {
        ' '
    };
    let negative = len > 0 && first == '-';
    let start: usize = if len > 0 && (first == '+' || first == '-') {
        1
    } else {
        0
    };
    if start == len {
        return Err(ParseError::InvalidFd { value });
    }
    proof {
        if start == 0 {
            assert(value@.subrange(0, value@.len() as int) =~= value@);
        }
    }
    let bound: u64 = if negative {
        0x8000_0000
    } else {
        0x7fff_ffff
    };
    match digits_at_most(text, start, bound) {
        Some(n) => {
            if negative {
                let magnitude = n as i64;
                Ok((0 - magnitude) as i32)
            } else {
                Ok(n as i32)
            }
        },
        None => Err(ParseError::InvalidFd { value }),
    }
}

/// Whether the texts `a` and `b` are equal.
pub(crate) fn text_is(a: &str, b: &str) -> (same: bool)
    ensures
        same == (a@ == b@),
{
    let n = a.unicode_len();
    if n != b.unicode_len() {
        return false;
    }
    let mut i: usize = 0;
    while i < n
        invariant
            n == a@.len() == b@.len(),
            i <= n,
            forall|j: int| 0 <= j < i ==> a@[j] == b@[j],
        decreases n - i,
    {
        if a.get_char(i) != b.get_char(i) {
            return false;
        }
        i = i + 1;
    }
    assert(a@ =~= b@);
    true
}

// ---------------------------------------------------------------------------
// The scan over the arguments.

/// Fields collected so far; a later occurrence of a flag overrides an
/// earlier one.
pub struct ArgsScan {
    pub sandbox_id: Option<Seq<char>>,
    pub tun_name: Option<Seq<char>>,
    pub sandbox_ip: Option<IpAddress>,
    pub broker_ip: Option<IpAddress>,
    pub mtu: Option<u16>,
    pub dns: Option<IpAddress>,
    pub proxy_ip: Option<IpAddress>,
    pub http_port: Option<u16>,
    pub socks_port: Option<u16>,
    pub handoff_fd: Option<i32>,
    pub handoff_socket: Option<Seq<char>>,
}

pub open spec fn empty_scan() -> ArgsScan {
    ArgsScan {
        sandbox_id: None,
        tun_name: None,
        sandbox_ip: None,
        broker_ip: None,
        mtu: None,
        dns: None,
        proxy_ip: None,
        http_port: None,
        socks_port: None,
        handoff_fd: None,
        handoff_socket: None,
    }
}

/// The flags that take a value.
pub open spec fn is_value_flag(flag: Seq<char>) -> bool {
    ||| flag == "--sandbox-id"@
    ||| flag == "--tun-name"@
    ||| flag == "--sandbox-ip"@
    ||| flag == "--broker-ip"@
    ||| flag == "--mtu"@
    ||| flag == "--dns"@
    ||| flag == "--proxy-ip"@
    ||| flag == "--http-proxy-port"@
    ||| flag == "--socks-proxy-port"@
    ||| flag == "--handoff-fd"@
    ||| flag == "--handoff-socket"@
}

/// `scan` after the value flag `flag` with value `value`, which denotes the
/// address `ip`, if any.
pub open spec fn apply_flag(scan: ArgsScan, flag: Seq<char>, value: Seq<char>, ip: Option<IpAddress>) -> Result<
    ArgsScan,
    ParseErrorView,
> {
    if flag == "--sandbox-id"@ {
        Ok(ArgsScan { sandbox_id: Some(value), ..scan })
    } else if flag == "--tun-name"@ {
        Ok(ArgsScan { tun_name: Some(value), ..scan })
    } else if flag == "--sandbox-ip"@ || flag == "--broker-ip"@ || flag == "--dns"@ || flag
        == "--proxy-ip"@ {
        match ip {
            None => Err(ParseErrorView::InvalidIp(flag, value)),
            Some(a) => if flag == "--sandbox-ip"@ {
                Ok(ArgsScan { sandbox_ip: Some(a), ..scan })
            } else if flag == "--broker-ip"@ {
                Ok(ArgsScan { broker_ip: Some(a), ..scan })
            } else if flag == "--dns"@ {
                Ok(ArgsScan { dns: Some(a), ..scan })
            } else {
                Ok(ArgsScan { proxy_ip: Some(a), ..scan })
            },
        }
    } else if flag == "--mtu"@ || flag == "--http-proxy-port"@ || flag == "--socks-proxy-port"@ {
        match u16_value(value) {
            None => Err(ParseErrorView::InvalidU16(flag, value)),
            Some(n) => if flag == "--mtu"@ {
                Ok(ArgsScan { mtu: Some(n), ..scan })
            } else if flag == "--http-proxy-port"@ {
                Ok(ArgsScan { http_port: Some(n), ..scan })
            } else {
                Ok(ArgsScan { socks_port: Some(n), ..scan })
            },
        }
    } else if flag == "--handoff-fd"@ {
        match i32_value(value) {
            None => Err(ParseErrorView::InvalidFd(value)),
            Some(fd) => Ok(ArgsScan { handoff_fd: Some(fd), ..scan }),
        }
    } else {
        Ok(ArgsScan { handoff_socket: Some(value), ..scan })
    }
}

/// Scans `args[i..]` from `scan`: `--` ends the flags and the rest is the
/// target command; every other argument must be a value flag followed by
/// its value. `ips[j]` is the address `args[j]` denotes, if any.
pub open spec fn scan_args(args: Seq<Seq<char>>, ips: Seq<Option<IpAddress>>, i: int, scan: ArgsScan) -> Result<
    (ArgsScan, Seq<Seq<char>>),
    ParseErrorView,
>
    decreases args.len() - i,
{
    if i < 0 || i >= args.len() {
        Ok((scan, Seq::empty()))
    } else if args[i] == "--"@ {
        Ok((scan, args.subrange(i + 1, args.len() as int)))
    } else if !is_value_flag(args[i]) {
        Err(ParseErrorView::UnknownFlag(args[i]))
    } else if i + 1 >= args.len() {
        Err(ParseErrorView::MissingValue(args[i]))
    } else {
        match apply_flag(scan, args[i], args[i + 1], ips[i + 1]) {
            Err(e) => Err(e),
            Ok(next) => scan_args(args, ips, i + 2, next),
        }
    }
}

/// The texts of `args`.
pub open spec fn texts(args: Seq<String>) -> Seq<Seq<char>> {
    Seq::new(args.len(), |i: int| args[i]@)
}

pub enum HandoffView {
    Fd(i32),
    UnixSocket(Seq<char>),
}

/// Parsed arguments with their texts as character sequences.
pub struct SetupArgsView {
    pub sandbox_id: Seq<char>,
    pub tun_name: Seq<char>,
    pub sandbox_ip: IpAddress,
    pub broker_ip: IpAddress,
    pub mtu: u16,
    pub dns_resolver: IpAddress,
    pub proxy_listener: Option<ProxyListenerConfig>,
    pub handoff: HandoffView,
    pub target: Seq<Seq<char>>,
}

impl View for SetupArgs {
    type V = SetupArgsView;

    open spec fn view(&self) -> SetupArgsView {
        SetupArgsView {
            sandbox_id: self.sandbox_id@,
            tun_name: self.tun.name@,
            sandbox_ip: self.tun.sandbox_ip,
            broker_ip: self.tun.broker_ip,
            mtu: self.tun.mtu,
            dns_resolver: self.dns_resolver,
            proxy_listener: self.proxy_listener,
            handoff: match self.handoff {
                SetupHandoff::Fd(fd) => HandoffView::Fd(fd),
                SetupHandoff::UnixSocket(path) => HandoffView::UnixSocket(path@),
            },
            target: texts(self.target@),
        }
    }
}

/// The arguments once every flag was scanned: a target command is
/// required; a proxy port needs the proxy address; then the sandbox id, the
/// TUN name and addresses, the MTU, the DNS resolver, and exactly one
/// handoff are required, checked in that order.
pub open spec fn finish_args(scan: ArgsScan, target: Seq<Seq<char>>) -> Result<SetupArgsView, ParseErrorView> {
    if target.len() == 0 {
        Err(ParseErrorView::TargetMissing)
    } else if scan.proxy_ip is None && (scan.http_port is Some || scan.socks_port is Some) {
        Err(ParseErrorView::MissingRequired("proxy-ip"@))
    } else if scan.sandbox_id is None {
        Err(ParseErrorView::MissingRequired("sandbox-id"@))
    } else if scan.tun_name is None {
        Err(ParseErrorView::MissingRequired("tun-name"@))
    } else if scan.sandbox_ip is None {
        Err(ParseErrorView::MissingRequired("sandbox-ip"@))
    } else if scan.broker_ip is None {
        Err(ParseErrorView::MissingRequired("broker-ip"@))
    } else if scan.mtu is None {
        Err(ParseErrorView::MissingRequired("mtu"@))
    } else if scan.dns is None {
        Err(ParseErrorView::MissingRequired("dns"@))
    } else {
        let proxy_listener = match scan.proxy_ip {
            Some(ip) => Some(
                ProxyListenerConfig { ip, http_port: scan.http_port, socks_port: scan.socks_port },
            ),
            None => None,
        };
        let handoff = match (scan.handoff_fd, scan.handoff_socket) {
            (Some(fd), None) => Ok(HandoffView::Fd(fd)),
            (None, Some(path)) => Ok(HandoffView::UnixSocket(path)),
            (Some(_), Some(_)) => Err(ParseErrorView::ConflictingHandoff),
            (None, None) => Err(ParseErrorView::MissingRequired("handoff"@)),
        };
        match handoff {
            Err(e) => Err(e),
            Ok(h) => Ok(
                SetupArgsView {
                    sandbox_id: scan.sandbox_id->Some_0,
                    tun_name: scan.tun_name->Some_0,
                    sandbox_ip: scan.sandbox_ip->Some_0,
                    broker_ip: scan.broker_ip->Some_0,
                    mtu: scan.mtu->Some_0,
                    dns_resolver: scan.dns->Some_0,
                    proxy_listener,
                    handoff: h,
                    target,
                },
            ),
        }
    }
}

/// What parsing `args` yields, given the address each argument denotes.
pub open spec fn parse_setup_args_spec(args: Seq<Seq<char>>, ips: Seq<Option<IpAddress>>) -> Result<
    SetupArgsView,
    ParseErrorView,
> {
    match scan_args(args, ips, 0, empty_scan()) {
        Err(e) => Err(e),
        Ok((scan, target)) => finish_args(scan, target),
    }
}

/// `scan` with its SOCKS port set to `port`.
pub open spec fn with_socks(scan: ArgsScan, port: Option<u16>) -> ArgsScan {
    ArgsScan { socks_port: port, ..scan }
}

/// Scanning from two states that differ only in the SOCKS port ends in
/// states that differ only in the SOCKS port: either a SOCKS flag set the
/// same port in both, or each kept the port it started with.
proof fn lemma_scan_socks_frame(
    args: Seq<Seq<char>>,
    ips: Seq<Option<IpAddress>>,
    i: int,
    scan: ArgsScan,
    port: Option<u16>,
)
    ensures
        match (scan_args(args, ips, i, scan), scan_args(args, ips, i, with_socks(scan, port))) {
            (Err(e1), Err(e2)) => e1 == e2,
            (Ok((r1, t1)), Ok((r2, t2))) => {
                &&& t1 == t2
                &&& with_socks(r1, None) == with_socks(r2, None)
                &&& (r1.socks_port == r2.socks_port || (r1.socks_port == scan.socks_port
                    && r2.socks_port == port))
            },
            _ => false,
        },
    decreases args.len() - i,
{
    if 0 <= i < args.len() && args[i] != "--"@ && is_value_flag(args[i]) && i + 1 < args.len() {
        match apply_flag(scan, args[i], args[i + 1], ips[i + 1]) {
            Err(_) => {},
            Ok(next) => {
                let next2 = apply_flag(with_socks(scan, port), args[i], args[i + 1], ips[i + 1])->Ok_0;
                if next.socks_port == next2.socks_port {
                    assert(next2 == with_socks(next, next.socks_port));
                    lemma_scan_socks_frame(args, ips, i + 2, next, next.socks_port);
                    assert(with_socks(next, next.socks_port) == next);
                } else {
                    assert(next2 == with_socks(next, port));
                    lemma_scan_socks_frame(args, ips, i + 2, next, port);
                }
            },
        }
    }
}

/// Scanning arguments none of which is `--socks-proxy-port` keeps the SOCKS
/// port the scan started with.
proof fn lemma_scan_keeps_socks(args: Seq<Seq<char>>, ips: Seq<Option<IpAddress>>, i: int, scan: ArgsScan)
    requires
        forall|j: int| 0 <= j < args.len() ==> args[j] != "--socks-proxy-port"@,
    ensures
        scan_args(args, ips, i, scan) matches Ok((r, _)) ==> r.socks_port == scan.socks_port,
    decreases args.len() - i,
{
    if 0 <= i < args.len() && args[i] != "--"@ && is_value_flag(args[i]) && i + 1 < args.len() {
        match apply_flag(scan, args[i], args[i + 1], ips[i + 1]) {
            Err(_) => {},
            Ok(next) => {
                lemma_scan_keeps_socks(args, ips, i + 2, next);
            },
        }
    }
}

/// Scanning behind a leading flag and its value is scanning the rest.
proof fn lemma_scan_behind_pair(
    args: Seq<Seq<char>>,
    ips: Seq<Option<IpAddress>>,
    flag: Seq<char>,
    value: Seq<char>,
    x: Option<IpAddress>,
    y: Option<IpAddress>,
    i: int,
    scan: ArgsScan,
)
    requires
        0 <= i,
        ips.len() == args.len(),
    ensures
        scan_args(seq![flag, value] + args, seq![x, y] + ips, i + 2, scan) == scan_args(args, ips, i, scan),
    decreases args.len() - i,
{
    let a2 = seq![flag, value] + args;
    let i2 = seq![x, y] + ips;
    if i < args.len() {
        assert(a2[i + 2] == args[i]);
        if args[i] == "--"@ {
            assert(a2.subrange(i + 3, a2.len() as int) =~= args.subrange(i + 1, args.len() as int));
        } else if is_value_flag(args[i]) && i + 1 < args.len() {
            assert(a2[i + 3] == args[i + 1]);
            assert(i2[i + 3] == ips[i + 1]);
            match apply_flag(scan, args[i], args[i + 1], ips[i + 1]) {
                Err(_) => {},
                Ok(next) => {
                    lemma_scan_behind_pair(args, ips, flag, value, x, y, i + 2, next);
                },
            }
        }
    }
}

/// Without a `--socks-proxy-port` argument the proxy listener has no SOCKS
/// port, whatever the other flags (the HTTP proxy port among them) say.
pub proof fn lemma_socks_port_absent_is_none(args: Seq<Seq<char>>, ips: Seq<Option<IpAddress>>)
    requires
        forall|j: int| 0 <= j < args.len() ==> args[j] != "--socks-proxy-port"@,
    ensures
        parse_setup_args_spec(args, ips) matches Ok(p) ==> (p.proxy_listener matches Some(l)
            ==> l.socks_port is None),
{
    lemma_scan_keeps_socks(args, ips, 0, empty_scan());
}

/// `--socks-proxy-port v`, given where no other `--socks-proxy-port`
/// stands, sets the listener's SOCKS port to `v` and changes nothing else
/// of a parse that succeeded with a proxy listener (its HTTP port included).
pub proof fn lemma_socks_flag_sets_socks_port(
    args: Seq<Seq<char>>,
    ips: Seq<Option<IpAddress>>,
    value: Seq<char>,
    x: Option<IpAddress>,
    y: Option<IpAddress>,
)
    requires
        ips.len() == args.len(),
        u16_value(value) is Some,
        forall|j: int| 0 <= j < args.len() ==> args[j] != "--socks-proxy-port"@,
        parse_setup_args_spec(args, ips) matches Ok(p) && p.proxy_listener is Some,
    ensures
        ({
            let p = parse_setup_args_spec(args, ips)->Ok_0;
            let l = p.proxy_listener->Some_0;
            parse_setup_args_spec(seq!["--socks-proxy-port"@, value] + args, seq![x, y] + ips)
                == Ok::<SetupArgsView, ParseErrorView>(
                SetupArgsView {
                    proxy_listener: Some(
                        ProxyListenerConfig { socks_port: u16_value(value), ..l },
                    ),
                    ..p
                },
            )
        }),
{
    reveal_strlit("--");
    reveal_strlit("--socks-proxy-port");
    reveal_strlit("--sandbox-id");
    reveal_strlit("--tun-name");
    reveal_strlit("--sandbox-ip");
    reveal_strlit("--broker-ip");
    reveal_strlit("--dns");
    reveal_strlit("--proxy-ip");
    reveal_strlit("--mtu");
    reveal_strlit("--http-proxy-port");
    let a2 = seq!["--socks-proxy-port"@, value] + args;
    let i2 = seq![x, y] + ips;
    let start = with_socks(empty_scan(), u16_value(value));
    assert(a2[0] == "--socks-proxy-port"@);
    assert(a2[1] == value);
    assert(apply_flag(empty_scan(), a2[0], a2[1], i2[1]) == Ok::<ArgsScan, ParseErrorView>(start));
    assert(scan_args(a2, i2, 0, empty_scan()) == scan_args(a2, i2, 2, start));
    lemma_scan_behind_pair(args, ips, "--socks-proxy-port"@, value, x, y, 0, start);
    lemma_scan_socks_frame(args, ips, 0, empty_scan(), u16_value(value));
    assert(with_socks(empty_scan(), u16_value(value)) == start);
    lemma_scan_keeps_socks(args, ips, 0, empty_scan());
    lemma_scan_keeps_socks(args, ips, 0, start);
}

#[derive(Clone, Copy, PartialEq, Eq, Structural)]
enum FlagKind {
    Separator,
    SandboxId,
    TunName,
    SandboxIp,
    BrokerIp,
    Dns,
    ProxyIp,
    Mtu,
    HttpPort,
    SocksPort,
    HandoffFd,
    HandoffSocket,
    Unknown,
}

spec fn flag_kind_spec(a: Seq<char>) -> FlagKind {
    if a == "--"@ {
        FlagKind::Separator
    } else if a == "--sandbox-id"@ {
        FlagKind::SandboxId
    } else if a == "--tun-name"@ {
        FlagKind::TunName
    } else if a == "--sandbox-ip"@ {
        FlagKind::SandboxIp
    } else if a == "--broker-ip"@ {
        FlagKind::BrokerIp
    } else if a == "--dns"@ {
        FlagKind::Dns
    } else if a == "--proxy-ip"@ {
        FlagKind::ProxyIp
    } else if a == "--mtu"@ {
        FlagKind::Mtu
    } else if a == "--http-proxy-port"@ {
        FlagKind::HttpPort
    } else if a == "--socks-proxy-port"@ {
        FlagKind::SocksPort
    } else if a == "--handoff-fd"@ {
        FlagKind::HandoffFd
    } else if a == "--handoff-socket"@ {
        FlagKind::HandoffSocket
    } else {
        FlagKind::Unknown
    }
}

fn flag_kind(a: &str) -> (kind: FlagKind)
    ensures
        kind == flag_kind_spec(a@),
{
    if text_is(a, "--") {
        FlagKind::Separator
    } else if text_is(a, "--sandbox-id") {
        FlagKind::SandboxId
    } else if text_is(a, "--tun-name") {
        FlagKind::TunName
    } else if text_is(a, "--sandbox-ip") {
        FlagKind::SandboxIp
    } else if text_is(a, "--broker-ip") {
        FlagKind::BrokerIp
    } else if text_is(a, "--dns") {
        FlagKind::Dns
    } else if text_is(a, "--proxy-ip") {
        FlagKind::ProxyIp
    } else if text_is(a, "--mtu") {
        FlagKind::Mtu
    } else if text_is(a, "--http-proxy-port") {
        FlagKind::HttpPort
    } else if text_is(a, "--socks-proxy-port") {
        FlagKind::SocksPort
    } else if text_is(a, "--handoff-fd") {
        FlagKind::HandoffFd
    } else if text_is(a, "--handoff-socket") {
        FlagKind::HandoffSocket
    } else {
        FlagKind::Unknown
    }
}

fn copy_texts(args: &Vec<String>, from: usize) -> (out: Vec<String>)
    requires
        from <= args@.len(),
    ensures
        texts(out@) == texts(args@).subrange(from as int, args@.len() as int),
{
    let mut out: Vec<String> = Vec::new();
    let mut i: usize = from;
    while i < args.len()
        invariant
            from <= i <= args@.len(),
            out@.len() == i - from,
            texts(out@) == texts(args@).subrange(from as int, i as int),
        decreases args@.len() - i,
    {
        let ghost before = out@;
        let item = args[i].clone();
        assert(item@ == args@[i as int]@);
        out.push(item);
        assert(out@.len() == before.len() + 1);
        assert(out@[before.len() as int]@ == args@[i as int]@);
        i = i + 1;
        assert forall|k: int| 0 <= k < out@.len() implies #[trigger] texts(out@)[k] == texts(
            args@,
        ).subrange(from as int, i as int)[k] by {
            assert(before.len() == i - 1 - from);
            if k < before.len() {
                assert(texts(before)[k] == texts(args@).subrange(from as int, i - 1)[k]);
                assert(out@[k] == before[k]);
            } else {
                assert(k == i - 1 - from);
                assert(texts(out@)[k] == out@[k]@);
                assert(texts(args@)[i - 1] == args@[i - 1]@);
            }
        }
        assert(texts(out@) =~= texts(args@).subrange(from as int, i as int));
    }
    out
}

/// The value that follows flag `flag`, at `args[at]`; missing when the
/// arguments end first.
pub fn next_value(flag: &str, args: &Vec<String>, at: usize) -> (result: Result<String, ParseError>)
    ensures
        result is Ok <==> at < args@.len(),
        result matches Ok(value) ==> value@ == args@[at as int]@,
        result matches Err(e) ==> e@ == ParseErrorView::MissingValue(flag@),
{
    if at < args.len() {
        Ok(args[at].clone())
    } else {
        Err(ParseError::MissingValue { flag: flag.to_owned() })
    }
}

/// The text of an optional string.
pub open spec fn opt_text(s: Option<String>) -> Option<Seq<char>> {
    match s {
        Some(t) => Some(t@),
        None => None,
    }
}

/// The address that `text` denotes, as the standard IP address parser
/// reads it, if any.
pub uninterp spec fn ip_of_text(text: Seq<char>) -> Option<IpAddress>;

/// The address each argument denotes, if any.
pub open spec fn ips_of(args: Seq<String>) -> Seq<Option<IpAddress>> {
    Seq::new(args.len(), |j: int| ip_of_text(args[j]@))
}

/// Reads `text` with `core::net::IpAddr`'s `FromStr` (an IPv4 dotted quad or
/// an IPv6 address); `None` where it does not parse. The contract names the
/// result and does not spell the address grammar out.
#[verifier::external_body]
fn parse_ip_text(text: &str) -> (ip: Option<IpAddress>)
    ensures
        ip == ip_of_text(text@),
{
    match text.parse::<core::net::IpAddr>() {
        Ok(core::net::IpAddr::V4(a)) => Some(IpAddress::V4(u32::from(a))),
        Ok(core::net::IpAddr::V6(a)) => Some(IpAddress::V6(u128::from(a))),
        Err(_) => None,
    }
}

/// Parses the setup helper's command line, reading each argument that an
/// address flag takes with the standard IP address parser.
pub fn parse_setup_args(args: Vec<String>) -> (result: Result<SetupArgs, ParseError>)
    ensures
        result matches Ok(parsed) ==> parse_setup_args_spec(texts(args@), ips_of(args@)) == Ok::<
            SetupArgsView,
            ParseErrorView,
        >(parsed@),
        result matches Err(e) ==> parse_setup_args_spec(texts(args@), ips_of(args@)) == Err::<
            SetupArgsView,
            ParseErrorView,
        >(e@),
{
    let mut ips: Vec<Option<IpAddress>> = Vec::new();
    let mut j: usize = 0;
    while j < args.len()
        invariant
            j <= args@.len(),
            ips@ == ips_of(args@).take(j as int),
        decreases args@.len() - j,
    {
        let ip = parse_ip_text(args[j].as_str());
        proof {
            assert(ips_of(args@).take(j + 1) =~= ips_of(args@).take(j as int).push(ip));
        }
        ips.push(ip);
        j = j + 1;
    }
    assert(ips@ =~= ips_of(args@));
    parse_setup_args_with_ips(args, ips)
}

/// Parses the setup helper's command line given the address each argument
/// denotes: `ips[j]` is the address `args[j]` reads as, if any.
pub fn parse_setup_args_with_ips(args: Vec<String>, ips: Vec<Option<IpAddress>>) -> (result: Result<
    SetupArgs,
    ParseError,
>)
    requires
        ips@.len() == args@.len(),
    ensures
        result matches Ok(parsed) ==> parse_setup_args_spec(texts(args@), ips@) == Ok::<
            SetupArgsView,
            ParseErrorView,
        >(parsed@),
        result matches Err(e) ==> parse_setup_args_spec(texts(args@), ips@) == Err::<
            SetupArgsView,
            ParseErrorView,
        >(e@),
{
    let ghost all = texts(args@);
    let mut sandbox_id: Option<String> = None;
    let mut tun_name: Option<String> = None;
    let mut sandbox_ip: Option<IpAddress> = None;
    let mut broker_ip: Option<IpAddress> = None;
    let mut mtu: Option<u16> = None;
    let mut dns: Option<IpAddress> = None;
    let mut proxy_ip: Option<IpAddress> = None;
    let mut http_port: Option<u16> = None;
    let mut socks_port: Option<u16> = None;
    let mut handoff_fd: Option<i32> = None;
    let mut handoff_socket: Option<String> = None;
    let mut target: Vec<String> = Vec::new();
    let mut i: usize = 0;
    assert(texts(target@) =~= Seq::<Seq<char>>::empty());
    while i < args.len()
        invariant_except_break
            i <= args@.len(),
            ips@.len() == args@.len(),
            all == texts(args@),
            texts(target@) == Seq::<Seq<char>>::empty(),
            scan_args(all, ips@, i as int, ArgsScan {
                sandbox_id: opt_text(sandbox_id),
                tun_name: opt_text(tun_name),
                sandbox_ip,
                broker_ip,
                mtu,
                dns,
                proxy_ip,
                http_port,
                socks_port,
                handoff_fd,
                handoff_socket: opt_text(handoff_socket),
            }) == scan_args(all, ips@, 0, empty_scan()),
        ensures
            ips@.len() == args@.len(),
            all == texts(args@),
            scan_args(all, ips@, 0, empty_scan()) == Ok::<(ArgsScan, Seq<Seq<char>>), ParseErrorView>(
                (
                    ArgsScan {
                        sandbox_id: opt_text(sandbox_id),
                        tun_name: opt_text(tun_name),
                        sandbox_ip,
                        broker_ip,
                        mtu,
                        dns,
                        proxy_ip,
                        http_port,
                        socks_port,
                        handoff_fd,
                        handoff_socket: opt_text(handoff_socket),
                    },
                    texts(target@),
                ),
            ),
        decreases args@.len() - i,
    {
        let kind = flag_kind(args[i].as_str());
        proof {
            assert(all[i as int] == args@[i as int]@);
        }
        if kind == FlagKind::Separator {
            target = copy_texts(&args, i + 1);
            break;
        }
        if kind == FlagKind::Unknown {
            return Err(ParseError::UnknownFlag { flag: args[i].clone() });
        }
        let value = match next_value(args[i].as_str(), &args, i + 1) {
            Ok(value) => value,
            Err(e) => {
                return Err(e);
            },
        };
        proof {
            assert(all[i + 1] == args@[i + 1]@);
        }
        match kind {
            FlagKind::SandboxId => {
                sandbox_id = Some(value);
            },
            FlagKind::TunName => {
                tun_name = Some(value);
            },
            FlagKind::SandboxIp | FlagKind::BrokerIp | FlagKind::Dns | FlagKind::ProxyIp => {
                match ips[i + 1] {
                    None => {
                        return Err(ParseError::InvalidIp { flag: args[i].clone(), value });
                    },
                    Some(ip) => {
                        if kind == FlagKind::SandboxIp {
                            sandbox_ip = Some(ip);
                        } else if kind == FlagKind::BrokerIp {
                            broker_ip = Some(ip);
                        } else if kind == FlagKind::Dns {
                            dns = Some(ip);
                        } else {
                            proxy_ip = Some(ip);
                        }
                    },
                }
            },
            FlagKind::Mtu | FlagKind::HttpPort | FlagKind::SocksPort => {
                match parse_u16(args[i].as_str(), value) {
                    Err(e) => {
                        return Err(e);
                    },
                    Ok(n) => {
                        if kind == FlagKind::Mtu {
                            mtu = Some(n);
                        } else if kind == FlagKind::HttpPort {
                            http_port = Some(n);
                        } else {
                            socks_port = Some(n);
                        }
                    },
                }
            },
            FlagKind::HandoffFd => {
                match parse_fd(value) {
                    Err(e) => {
                        return Err(e);
                    },
                    Ok(fd) => {
                        handoff_fd = Some(fd);
                    },
                }
            },
            _ => {
                handoff_socket = Some(value);
            },
        }
        i = i + 2;
    }
    if target.len() == 0 {
        return Err(ParseError::TargetMissing);
    }
    let proxy_listener = match proxy_ip {
        Some(ip) => Some(ProxyListenerConfig { ip, http_port, socks_port }),
        None => {
            if http_port.is_some() || socks_port.is_some() {
                return Err(ParseError::MissingRequired { field: "proxy-ip" });
            }
            None
        },
    };
    let sandbox_id = match sandbox_id {
        Some(id) => id,
        None => {
            return Err(ParseError::MissingRequired { field: "sandbox-id" });
        },
    };
    let tun_name = match tun_name {
        Some(name) => name,
        None => {
            return Err(ParseError::MissingRequired { field: "tun-name" });
        },
    };
    let sandbox_ip = match sandbox_ip {
        Some(ip) => ip,
        None => {
            return Err(ParseError::MissingRequired { field: "sandbox-ip" });
        },
    };
    let broker_ip = match broker_ip {
        Some(ip) => ip,
        None => {
            return Err(ParseError::MissingRequired { field: "broker-ip" });
        },
    };
    let mtu = match mtu {
        Some(m) => m,
        None => {
            return Err(ParseError::MissingRequired { field: "mtu" });
        },
    };
    let dns_resolver = match dns {
        Some(ip) => ip,
        None => {
            return Err(ParseError::MissingRequired { field: "dns" });
        },
    };
    let handoff = match (handoff_fd, handoff_socket) {
        (Some(fd), None) => SetupHandoff::Fd(fd),
        (None, Some(path)) => SetupHandoff::UnixSocket(path),
        (Some(_), Some(_)) => {
            return Err(ParseError::ConflictingHandoff);
        },
        (None, None) => {
            return Err(ParseError::MissingRequired { field: "handoff" });
        },
    };
    Ok(
        SetupArgs {
            sandbox_id: SandboxId::new(sandbox_id.as_str()),
            tun: TunDeviceConfig { name: tun_name, sandbox_ip, broker_ip, mtu },
            dns_resolver,
            proxy_listener,
            handoff,
            target,
        },
    )
}

// ---------------------------------------------------------------------------
// Running the setup.

/// Failure of one setup step.
#[derive(Clone, Debug, PartialEq, Eq)]
pub enum SetupError {
    Parse(ParseError),
    InvalidPlan(String),
    Device(String),
    Handoff(String),
    DnsConfig(String),
    PrivilegeDrop(String),
    Exec(String),
}

/// One operation the setup asked of its backend: its arguments, taken as
/// plain values, and what it reported.
pub enum SetupCall {
    CreateTun { name: Seq<char>, result: Result<i32, SetupError> },
    ConfigureTun {
        name: Seq<char>,
        sandbox_ip: IpAddress,
        broker_ip: IpAddress,
        mtu: u16,
        result: Result<(), SetupError>,
    },
    ConfigureDns { resolver: IpAddress, result: Result<(), SetupError> },
    HandoffFd { handoff_fd: i32, tun_fd: i32, result: Result<(), SetupError> },
    HandoffSocket { path: Seq<char>, tun_fd: i32, result: Result<(), SetupError> },
    DropPrivileges { result: Result<(), SetupError> },
    ExecTarget { target: Seq<Seq<char>>, result: Result<(), SetupError> },
}

/// The operations that create and configure the TUN device, hand its
/// descriptor over, drop privileges, and run the target command. Each one
/// is recorded in `setup_calls`, with its arguments and its result.
pub trait SetupBackend {
    /// The operations performed on this backend so far, oldest first.
    closed spec fn setup_calls(&self) -> Seq<SetupCall> {
        Seq::empty()
    }

    fn create_tun(&mut self, name: &str) -> (result: Result<i32, SetupError>)
        ensures
            final(self).setup_calls() == old(self).setup_calls().push(
                SetupCall::CreateTun { name: name@, result },
            ),
    ;

    fn configure_tun(&mut self, config: &TunDeviceConfig) -> (result: Result<(), SetupError>)
        ensures
            final(self).setup_calls() == old(self).setup_calls().push(
                SetupCall::ConfigureTun {
                    name: config.name@,
                    sandbox_ip: config.sandbox_ip,
                    broker_ip: config.broker_ip,
                    mtu: config.mtu,
                    result,
                },
            ),
    ;

    fn configure_dns(&mut self, resolver: IpAddress) -> (result: Result<(), SetupError>)
        ensures
            final(self).setup_calls() == old(self).setup_calls().push(
                SetupCall::ConfigureDns { resolver, result },
            ),
    ;

    fn handoff_tun_fd(&mut self, handoff_fd: i32, tun_fd: i32) -> (result: Result<(), SetupError>)
        ensures
            final(self).setup_calls() == old(self).setup_calls().push(
                SetupCall::HandoffFd { handoff_fd, tun_fd, result },
            ),
    ;

    fn handoff_tun_socket(&mut self, path: &str, tun_fd: i32) -> (result: Result<(), SetupError>)
        ensures
            final(self).setup_calls() == old(self).setup_calls().push(
                SetupCall::HandoffSocket { path: path@, tun_fd, result },
            ),
    ;

    fn drop_setup_privileges(&mut self) -> (result: Result<(), SetupError>)
        ensures
            final(self).setup_calls() == old(self).setup_calls().push(
                SetupCall::DropPrivileges { result },
            ),
    ;

    fn exec_target(&mut self, target: &Vec<String>) -> (result: Result<(), SetupError>)
        ensures
            final(self).setup_calls() == old(self).setup_calls().push(
                SetupCall::ExecTarget { target: texts(target@), result },
            ),
    ;
}

/// What the operation `call` reported, without the descriptor a created
/// TUN device returns.
pub open spec fn call_outcome(call: SetupCall) -> Result<(), SetupError> {
    match call {
        SetupCall::CreateTun { result, .. } => match result {
            Ok(_) => Ok(()),
            Err(e) => Err(e),
        },
        SetupCall::ConfigureTun { result, .. } => result,
        SetupCall::ConfigureDns { result, .. } => result,
        SetupCall::HandoffFd { result, .. } => result,
        SetupCall::HandoffSocket { result, .. } => result,
        SetupCall::DropPrivileges { result } => result,
        SetupCall::ExecTarget { result, .. } => result,
    }
}

/// The descriptor that `call` reported for a created TUN device.
pub open spec fn created_fd(call: SetupCall) -> i32 {
    match call {
        SetupCall::CreateTun { result: Ok(fd), .. } => fd,
        _ => 0,
    }
}

/// Whether `call` is operation `i` of the setup of `a` (counting from 0),
/// with the arguments that setup hands it, the TUN device having
/// descriptor `tun_fd`: create, configure, DNS, handoff, drop, exec.
pub open spec fn is_setup_call(a: SetupArgsView, i: int, tun_fd: i32, call: SetupCall) -> bool {
    if i == 0 {
        call matches SetupCall::CreateTun { name, .. } && name == a.tun_name
    } else if i == 1 {
        call matches SetupCall::ConfigureTun { name, sandbox_ip, broker_ip, mtu, .. } && name
            == a.tun_name && sandbox_ip == a.sandbox_ip && broker_ip == a.broker_ip && mtu == a.mtu
    } else if i == 2 {
        call matches SetupCall::ConfigureDns { resolver, .. } && resolver == a.dns_resolver
    } else if i == 3 {
        match a.handoff {
            HandoffView::Fd(h) => call matches SetupCall::HandoffFd { handoff_fd, tun_fd: t, .. }
                && handoff_fd == h && t == tun_fd,
            HandoffView::UnixSocket(p) => call matches SetupCall::HandoffSocket {
                path,
                tun_fd: t,
                ..
            } && path == p && t == tun_fd,
        }
    } else if i == 4 {
        call is DropPrivileges
    } else {
        i == 5 && (call matches SetupCall::ExecTarget { target, .. } && target == a.target)
    }
}

/// Whether `calls` is a run of the setup of `a` that ended in `result`:
/// the six operations in order, each with the arguments the setup hands
/// it and the handoff given the descriptor the creation reported, cut at
/// the first one that failed; the run ends in that failure, or in the
/// result of running the target.
pub open spec fn setup_run(a: SetupArgsView, calls: Seq<SetupCall>, result: Result<(), SetupError>) -> bool {
    &&& 1 <= calls.len() <= 6
    &&& forall|i: int| 0 <= i < calls.len() ==> is_setup_call(a, i, created_fd(calls[0]), #[trigger] calls[i])
    &&& forall|i: int| 0 <= i < calls.len() - 1 ==> call_outcome(#[trigger] calls[i]) is Ok
    &&& result == call_outcome(calls.last())
    &&& calls.len() < 6 ==> result is Err
}

/// Which step of the setup the helper waits on; every step before it
/// succeeded. The TUN descriptor is known once the device was created.
#[derive(Clone, Copy, Debug, PartialEq, Eq, Structural)]
pub enum SetupPhase {
    Start,
    AwaitCreate,
    AwaitConfigure(i32),
    AwaitDns(i32),
    AwaitHandoff,
    AwaitDrop,
    AwaitExec,
    Done,
}

/// What the last backend operation reported.
#[derive(Clone, Copy, Debug, PartialEq, Eq, Structural)]
pub enum SetupEvent {
    Begin,
    TunCreated(i32),
    Succeeded,
    Failed,
}

/// The next backend operation, or the end of the setup.
#[derive(Clone, Copy, Debug, PartialEq, Eq, Structural)]
pub enum SetupAction {
    CreateTun,
    ConfigureTun,
    ConfigureDns,
    /// Hand the TUN descriptor `tun_fd` over, as the arguments say.
    HandOff(i32),
    DropPrivileges,
    ExecTarget,
    Finish,
}

/// How many setup operations have succeeded in `phase`.
pub open spec fn steps_done(phase: SetupPhase) -> int {
    match phase {
        SetupPhase::Start => 0,
        SetupPhase::AwaitCreate => 0,
        SetupPhase::AwaitConfigure(_) => 1,
        SetupPhase::AwaitDns(_) => 2,
        SetupPhase::AwaitHandoff => 3,
        SetupPhase::AwaitDrop => 4,
        SetupPhase::AwaitExec => 5,
        SetupPhase::Done => 6,
    }
}

/// Whether `event` is a result the setup can receive in `phase`.
pub open spec fn setup_expects(phase: SetupPhase, event: SetupEvent) -> bool {
    match phase {
        SetupPhase::Start => event is Begin,
        SetupPhase::AwaitCreate => event is TunCreated || event is Failed,
        SetupPhase::Done => false,
        _ => event is Succeeded || event is Failed,
    }
}

/// One step of the setup: create the TUN device, configure it, point DNS at
/// the broker, hand the TUN descriptor over, drop privileges, and exec the
/// target; the first failure ends the setup. The target is only run once
/// all five earlier operations succeeded.
pub fn setup_step(phase: SetupPhase, event: SetupEvent) -> (step: (SetupPhase, SetupAction))
    requires
        setup_expects(phase, event),
    ensures
        step.1 is Finish <==> step.0 is Done,
        step.1 is ExecTarget ==> phase is AwaitDrop && event is Succeeded && steps_done(phase) == 4,
        event is Failed ==> step == (SetupPhase::Done, SetupAction::Finish),
        !(event is Failed) ==> steps_done(step.0) == steps_done(phase) + 1 || phase is Start,
        step == (match (phase, event) {
            (SetupPhase::Start, _) => (SetupPhase::AwaitCreate, SetupAction::CreateTun),
            (_, SetupEvent::Failed) => (SetupPhase::Done, SetupAction::Finish),
            (SetupPhase::AwaitCreate, SetupEvent::TunCreated(fd)) => (
                SetupPhase::AwaitConfigure(fd),
                SetupAction::ConfigureTun,
            ),
            (SetupPhase::AwaitConfigure(fd), _) => (SetupPhase::AwaitDns(fd), SetupAction::ConfigureDns),
            (SetupPhase::AwaitDns(fd), _) => (SetupPhase::AwaitHandoff, SetupAction::HandOff(fd)),
            (SetupPhase::AwaitHandoff, _) => (SetupPhase::AwaitDrop, SetupAction::DropPrivileges),
            (SetupPhase::AwaitDrop, _) => (SetupPhase::AwaitExec, SetupAction::ExecTarget),
            _ => (SetupPhase::Done, SetupAction::Finish),
        }),
{
    match (phase, event) {
        (SetupPhase::Start, _) => (SetupPhase::AwaitCreate, SetupAction::CreateTun),
        (_, SetupEvent::Failed) => (SetupPhase::Done, SetupAction::Finish),
        (SetupPhase::AwaitCreate, SetupEvent::TunCreated(fd)) => (
            SetupPhase::AwaitConfigure(fd),
            SetupAction::ConfigureTun,
        ),
        (SetupPhase::AwaitConfigure(fd), _) => (SetupPhase::AwaitDns(fd), SetupAction::ConfigureDns),
        (SetupPhase::AwaitDns(fd), _) => (SetupPhase::AwaitHandoff, SetupAction::HandOff(fd)),
        (SetupPhase::AwaitHandoff, _) => (SetupPhase::AwaitDrop, SetupAction::DropPrivileges),
        (SetupPhase::AwaitDrop, _) => (SetupPhase::AwaitExec, SetupAction::ExecTarget),
        _ => (SetupPhase::Done, SetupAction::Finish),
    }
}

/// The event a finished operation reports.
fn event_of(result: &Result<(), SetupError>) -> (event: SetupEvent)
    ensures
        event == (if result is Ok {
            SetupEvent::Succeeded
        } else {
            SetupEvent::Failed
        }),
{
    match result {
        Ok(()) => SetupEvent::Succeeded,
        Err(_) => SetupEvent::Failed,
    }
}

/// The target command runs only as the sixth operation, after the TUN
/// device was created and configured, DNS was pointed at the broker, the
/// descriptor the creation reported was handed over, and privileges were
/// dropped, each of these having succeeded.
pub proof fn lemma_target_runs_after_handoff_and_drop(
    a: SetupArgsView,
    calls: Seq<SetupCall>,
    result: Result<(), SetupError>,
    k: int,
)
    requires
        setup_run(a, calls, result),
        0 <= k < calls.len(),
        calls[k] is ExecTarget,
    ensures
        k == 5,
        calls.len() == 6,
        forall|i: int| 0 <= i < 5 ==> call_outcome(#[trigger] calls[i]) is Ok,
        calls[0] matches SetupCall::CreateTun { result: Ok(fd), .. } && is_setup_call(a, 3, fd, calls[3]),
        calls[4] is DropPrivileges,
        result == call_outcome(calls[5]),
{
    assert(is_setup_call(a, k, created_fd(calls[0]), calls[k]));
    assert(call_outcome(calls[0]) is Ok);
    assert(is_setup_call(a, 3, created_fd(calls[0]), calls[3]));
    assert(is_setup_call(a, 4, created_fd(calls[0]), calls[4]));
}

/// Appending to a record keeps its first `n` entries and appends to the
/// rest.
proof fn lemma_record_push(calls: Seq<SetupCall>, n: int, call: SetupCall, after: Seq<SetupCall>)
    requires
        0 <= n <= calls.len(),
        after == calls.push(call),
    ensures
        after.take(n) == calls.take(n),
        after.skip(n) == calls.skip(n).push(call),
{
    assert(after.take(n) =~= calls.take(n));
    assert(after.skip(n) =~= calls.skip(n).push(call));
}

/// Runs the setup through `backend`, one `setup_step` at a time, and
/// returns the first failure or the result of running the target.
/// `plan_check` is the outcome of validating `args.setup_plan()`; a plan
/// that failed validation is returned before any backend operation.
pub fn run_setup<B: SetupBackend>(
    args: &SetupArgs,
    plan_check: Result<(), SetupError>,
    backend: &mut B,
) -> (result: Result<(), SetupError>)
    ensures
        plan_check is Err ==> result == plan_check && final(backend).setup_calls() == old(
            backend,
        ).setup_calls(),
        plan_check is Ok ==> ({
            let before = old(backend).setup_calls();
            let after = final(backend).setup_calls();
            &&& before.len() <= after.len()
            &&& after.take(before.len() as int) == before
            &&& setup_run(args@, after.skip(before.len() as int), result)
        }),
{
    if plan_check.is_err() {
        return plan_check;
    }
    let ghost before = backend.setup_calls();
    let mut phase = SetupPhase::Start;
    let mut event = SetupEvent::Begin;
    let mut outcome: Result<(), SetupError> = Ok(());
    loop
        invariant
            plan_check is Ok,
            setup_expects(phase, event),
            event is Failed ==> outcome is Err,
            before == old(backend).setup_calls(),
            before.len() <= backend.setup_calls().len(),
            backend.setup_calls().take(before.len() as int) == before,
            ({
                let seg = backend.setup_calls().skip(before.len() as int);
                &&& phase is Start ==> seg.len() == 0
                &&& !(phase is Start) ==> seg.len() == steps_done(phase) + 1
                &&& !(phase is Done)
                &&& forall|i: int| 0 <= i < seg.len() ==> is_setup_call(args@, i, created_fd(seg[0]), #[trigger] seg[i])
                &&& forall|i: int| 0 <= i < seg.len() - 1 ==> call_outcome(#[trigger] seg[i]) is Ok
                &&& seg.len() > 0 ==> outcome == call_outcome(seg.last())
                &&& seg.len() > 0 ==> (event is Failed <==> call_outcome(seg.last()) is Err)
                &&& event matches SetupEvent::TunCreated(fd) ==> seg[0] matches SetupCall::CreateTun { result: Ok(f), .. } && f == fd
                &&& phase matches SetupPhase::AwaitConfigure(fd) ==> fd == created_fd(seg[0])
                &&& phase matches SetupPhase::AwaitDns(fd) ==> fd == created_fd(seg[0])
            }),
        decreases 7 - steps_done(phase) + (if phase is Start {
            1int
        } else {
            0int
        }),
    {
        let ghost prev = backend.setup_calls();
        let (next, action) = setup_step(phase, event);
        phase = next;
        match action {
            SetupAction::Finish => {
                return outcome;
            },
            SetupAction::CreateTun => {
                match backend.create_tun(args.tun.name.as_str()) {
                    Ok(fd) => {
                        outcome = Ok(());
                        event = SetupEvent::TunCreated(fd);
                    },
                    Err(e) => {
                        outcome = Err(e);
                        event = SetupEvent::Failed;
                    },
                }
            },
            SetupAction::ConfigureTun => {
                outcome = backend.configure_tun(&args.tun);
                event = event_of(&outcome);
            },
            SetupAction::ConfigureDns => {
                outcome = backend.configure_dns(args.dns_resolver);
                event = event_of(&outcome);
            },
            SetupAction::HandOff(tun_fd) => {
                outcome = match &args.handoff {
                    SetupHandoff::Fd(fd) => backend.handoff_tun_fd(*fd, tun_fd),
                    SetupHandoff::UnixSocket(path) => backend.handoff_tun_socket(path.as_str(), tun_fd),
                };
                event = event_of(&outcome);
            },
            SetupAction::DropPrivileges => {
                outcome = backend.drop_setup_privileges();
                event = event_of(&outcome);
            },
            SetupAction::ExecTarget => {
                outcome = backend.exec_target(&args.target);
                event = event_of(&outcome);
            },
        }
        proof {
            let after = backend.setup_calls();
            lemma_record_push(prev, before.len() as int, after.last(), after);
        }
    }
}

} // verus!
