# tor-replay (verified core)

The logic of a live Tor relay world-map dashboard, written in Verus and
proved against its contracts, plus the egui/walkers front end around it.

- `src/relay.rs` — the Onionoo relay model: flags (ASCII case-insensitive),
  relay type, primary IP without port, display name, labels and colours.
- `src/text.rs` — character-level matching: ASCII case-insensitive equality,
  substring search, index helpers and byte-limited clipping.
- `src/cluster.rs` — grouping relays into grid-cell bubbles with exact
  per-type counts.
- `src/map_plugin.rs` — which relays the map shows (type toggles, search,
  position) and in which order.
- `src/dashboard.rs` — network statistics and the dashboard's filter and
  selection state.
- `src/fetch.rs` — the download state machine.
- `app/` — the eframe application, drawing, the walkers map layer, the
  Onionoo download and the floating-point geometry.
- `tests/` — concrete scenarios for all of the above.
