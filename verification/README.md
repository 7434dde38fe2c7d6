# myboot

The core of a UEFI boot manager, verified with Verus. It discovers the
bootable systems of a machine (firmware boot options, the ESP, vendor
directories, Boot Loader Specification entries, NixOS bootspec generations)
into one Boot Graph, judges each entry's health, chooses a default by an
explainable policy, plans how each entry is launched, and builds the data a
directly loaded Linux kernel reads at hand-off.

Layout:

- `src/` — the verified library. `graph` (the Boot Graph and stable ids),
  `discovery` (the sources and graph assembly), `health`, `policy`,
  `providers` (one launch planner per OS family), `security` (Secure Boot
  posture and the launch policy), `config` (TOML subset, schema, firmware
  BootOrder reconciliation), `persistence` (load options, NVRAM state, the
  boot log), `arch` (the x86 zero page), `engine` (the pipeline's decisions),
  `platform` (what the firmware adapter computes), `ports` (the variable and
  file interfaces, with in-memory stores) and `text` (string helpers).
- `tests/` — the tests, run against the in-memory stores.
- `app/` — the UEFI application: the firmware adapters and the pipeline that
  drives the library.
