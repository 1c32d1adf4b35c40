# openwidget

The verified core of the OpenWidGet desktop widget runtime.

A widget occupies cells of the Windows desktop icon grid through runtime-owned
`.lnk` files (Anchor Shortcuts) and draws an HTML overlay above them. This crate
holds the logic of that model, written in Verus and proved against its contracts:

- `src/anchor_shortcuts.rs`: sanitising ids, planning a widget's Anchor Shortcuts
  (ids, file names, descriptions, arguments), recognising anchor files and stale
  ones, the PowerShell shortcut script, the session id, and the lifecycle receipt.
- `src/desktop_grid.rs`: grid geometry and widget footprint plans, the
  reconcile-only positioning policy, parsing anchor names, and matching observed
  anchor icons against their target slots.
- `src/app_status.rs`: the application receipt.
- `src/laws.rs`: properties across modules (planned names parse back to their
  slot, slots tile their plan, an anchor at its slot reconciles with zero delta).
- `src/text.rs`: the character-level model (search, trim, split, decimal).

`app/` is the Tauri shell around the library: environment and file-system
access, the PowerShell probes and their JSON, the tray, and the commands that
serialise the receipts. `extras/listview_anchor_probe.ps1` is the PowerShell/C#
probe that reads anchor icon positions from the desktop ListView.
