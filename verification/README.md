# foxprox

The verified core of foxprox, a TUN-device transparent network broker for
policy-based sandboxing. The library is written in Verus: its functions are
proved against their contracts, and the laws of the library are public proof
functions. A few small functions make calls into std (an atomic counter,
UTF-8 decoding, whitespace splitting, IP address parsing, building an I/O
error); their contracts say what std documents and are not proved.

## Layout

- `src/policy.rs` — policy evaluation over normalized events: unsupported
  events fail closed, the fixed safety checks come first, then the configured
  rules in order, then the default policy.
- `src/packet.rs`, `src/checksum.rs` — IPv4 inspection, ICMP echo replies and
  unreachable messages, Internet checksums.
- `src/proxy.rs` — HTTP proxy and SOCKS5 framing, responses, request-head
  reading, and the origin-form rewrite of forwarded requests.
- `src/bridge.rs`, `src/flows.rs`, `src/limits.rs` — TCP and UDP bridge tables
  with their resource limits and fair read passes, flow tracking, the DNS
  attribution cache, worker limits.
- `src/stack.rs`, `src/tcp.rs`, `src/adapter.rs`, `src/net.rs` — in-memory
  packet devices, UDP reply synthesis, the stack adapter's listener
  bookkeeping, shared network types.
- `src/runtime.rs` — runtime tick and loop bookkeeping.
- `src/tun_bridge.rs`, `src/broker_step.rs`, `src/device_step.rs` — the
  decisions of the TUN packet bridge, the UDP datagram exchange, the first
  TCP stream bridge, and the broker's handling of an inspected packet and of
  a DNS query, as step functions from phase and event to next phase and
  action (nothing reaches the stack or the host after a denial, a malformed
  packet or a failed audit), and the inspection of a transparent flow's first
  payload before any of it reaches the host.
- `src/helper.rs`, `src/setup.rs` — the setup helper's argument parsing and
  setup sequence (create and configure the TUN device, point DNS at the
  broker, hand the descriptor over, drop privileges, run the target, each
  recorded with its arguments), capability dropping, descriptor-passing sizes.
- `app/` — the operating-system side: smoltcp devices and the stack adapter,
  TUN descriptors, capability system calls, descriptor hand-off, socket reads.
- `tests/` — tests of the library through its public API.
