# homelab_utils

The verified core of a homelab device inventory: LAN discovery decisions, SSH detection,
service identification, login suggestions, credential handling and terminal launching, with
their behaviour stated in contracts and proved.

Layout:

- `src/` — the verified library:
  - `model` — devices, names, the `ssh` command, login suggestions, IP text;
  - `net` — reading IPv4/IPv6 text, the `/24` host range, address order, MAC numbers;
  - `discovery`, `mdns`, `arp`, `oui`, `ssh` — which hosts to scan, what each source says,
    and how device records are built, enriched, grouped and ordered;
  - `portscan`, `identify` — banner/HTTP parsing, fingerprints, and the per-port
    identification state machine;
  - `inventory`, `store`, `crypto`, `paths` — merging scans into the saved inventory (with its
    laws), credential rows, password sealing, data locations;
  - `terminals`, `cli` — the terminal registry and launch commands, command-line cells;
  - `text` — character-sequence specifications and their executable counterparts.
- `tests/` — tests of the library through its public API.
- `app/` — the `hlu-discover` program and the network, SQLite, clipboard and process I/O
  around the library (not verified).
