# payment_switch

An ISO 8583 payment switch whose message codecs, routing and switching
decisions are written in Verus and proved against their specifications.

- `src/` — the verified library: text-keyed concurrent maps (`tables`,
  over `dashmap`), field and bitmap codecs (`iso_fields`,
  `dialect`, `proto`, `layout_roundtrip`), the canonical event and journal
  record (`canonical`), framing and the Thales HSM protocol (`framing`,
  `thales`, `hsm`), BIN routing (`routing`), the in-flight guard, STAN
  translation and reaper (`guard`), the switching decisions and stand-in
  processing (`engine`, `state`), the ingress step that applies the screens
  in order (`ingress`), the token vault (`vault`), settlement, ledger,
  telemetry, simulator and edge rules. Laws are the `law_*` proof functions.
- `tests/` — executable tests of the library.
- `app/` — the services around it (daemon, upstream links, settlement,
  simulator, mock bank and HSM, control plane, orchestrator): threads,
  sockets, databases and clocks, with each decision taken by a library call.
  What stays there besides I/O: the simulator's random scenario draws and
  the ledger's fee, which are floating point.
