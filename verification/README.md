# portcullis

Rule model and lint pass for a single-box packet-filtering firewall/router,
written in Verus.

`src/` is the verified library:

- `matcher`, `addr` — the matcher vocabulary (protocol, IPv4/IPv6 address as
  single / CIDR block / range, port, interface) and the superset / overlap
  decisions; `laws` proves what those decisions mean for the packets each
  matcher admits.
- `rule`, `ruleset`, `action`, `nat_rule`, `shaping` — rules, chains,
  rulesets, actions, NAT and rate-limit shapes, rule diffs.
- `order` — the evaluation order of a chain (a stable sort by priority),
  specified by what it is and proved unique.
- `lint` — `verify`, whose contract lists exactly which issues are reported,
  with which rules and messages, in which order.
- `bridge` — the priority-ordered copy of a ruleset handed to a dataplane
  that evaluates in declaration order.
- `config`, `control`, `state`, `privd`, `cli` — the decisions of the daemon
  and the admin CLI: accepting a parsed config, what each control request
  leads to and how it is answered, when a changed config file is reloaded,
  apply bookkeeping, reserved privileged-command kinds, and what the CLI
  prints and exits with.

`app/` holds what cannot be verified: file and socket I/O, TOML/JSON
encoding (serializable copies of the library's types), the dataplane and
privileged-helper clients, logging, and the daemon / CLI entry points.
