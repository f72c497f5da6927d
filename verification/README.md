# rollcall

Reconcile a declared fleet against observed reality: device, network and
guest inventory (TOML files or a NetBox escrow) checked against read-only SSH
hardware sweeps and probe snapshots, with drift reports, a reproducible NetBox
escrow, and a rendered status report.

## Layout

- `src/` — the verified library (Verus). Every function states its contract
  over mathematical models and is proved against it, except a few trusted
  wrappers whose contracts Verus takes on faith: the serde_json parse and
  display (`json.rs`), the toml parse (`inventory/probes.rs`), and std's
  string collection, `{:?}` quoting and Unicode case mapping (`text.rs`).
  - `facts/` — parsing the command batteries into host facts, and the
    reconciler that checks them against the declared inventory.
  - `inventory/` — the declared data model, the probe-file schema, and the
    guest-registry collision gate.
  - `netbox/` — canonicalizing the escrow, reconstructing the inventory from
    it, its id-independent logical view, and the pull, restore and wipe runs
    as state machines.
  - `report/` — LaTeX escaping and number grouping, the computed sections,
    editorial placeholder substitution, narration with its grounding
    guardrail, the risk register, and document assembly.
  - `json.rs`, `text.rs`, `sort.rs` — the JSON value model, text utilities
    and stable sorts the rest is built on.
- `app/` — the I/O around the library: file loading (serde/TOML), SSH
  sweeps, HTTP against NetBox, XeLaTeX, the on-device narrative provider, and
  the floating-point power economics.
- `tests/` — tests of the library's public API.

The laws the library promises are public proof functions named `law_*`.
