# itasha_installer

The Itasha.Corp provisioning installer: a small Windows installer with a
CRT-styled console that unpacks an embedded payload, registers the app in
Add/Remove Programs, links shortcuts, wires the machine PATH, and offers
opt-in crash reporting and a manual "report an issue" path.

The decisions the installer makes are a library verified with Verus; the
window, the file system, the registry and the network stay in a thin host.

## Layout

- `src/` — the verified library.
  - `text.rs`: Unicode whitespace, trimming, decimal text, substring search.
  - `console.rs`: the default location, word wrapping, the provisioning log,
    the status line, and the hidden window's placement.
  - `engine.rs`: the install plan, Windows path joining, and the exact
    `reg` / PowerShell / `cmd` command lines the host runs.
  - `payload.rs`: reading the embedded zip, through the `zip` crate.
  - `reporting.rs`: crash-report outcomes, transport selection, the editable
    preview, and the crash-consent queue.
  - `issue_intake.rs`: the issue dialog's state, body and request.
  - `theme.rs`: brand colour parsing and the generated window icon.
- `tests/` — tests of the library.
- `app/` — the host: the egui window, the I/O, and the report SDK glue.

The report glue in `app/` builds on the in-house `itasha-report-core` and
`itasha-report-transport-tor` crates, which are not published on crates.io;
the library holds the decisions around them and needs neither. The install
paths follow Windows path rules, the installer's only target.
