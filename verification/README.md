# xdp_top

A terminal monitor of XDP-capable network cards: per-queue packet rates, XDP
attachment and zero-copy capability, driver and hardware details, and an
assessment of how traffic spreads over queues and cores.

- `src/` is the verified library (Verus):
  - `text.rs`: line, whitespace, search and number handling over characters;
  - `report.rs`: what is read from `ethtool -i`, `ethtool -l`, `lspci`,
    `ip -details link show` and the queue directory of a NIC;
  - `stats.rs`: per-queue counters sampled from `ethtool -S`;
  - `ranking.rs`: the order of the NICs and the one shown first;
  - `app.rs`: the monitor state, NIC selection and traffic totals;
  - `input.rs`: the answers to keys and mouse events;
  - `ui.rs`: screen geometry and the labels drawn.
- `app/` is the program around it: the terminal, the system probes, the clock,
  and the rates per second, which are floating point.
