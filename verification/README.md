# knave_shell

The verified core of the Knave shell, a Wayland bar and workspace overview.

- `src/` is the library, checked by Verus: the roles' layer settings and key
  handling, search, the content of the bar and overview scenes, the snapshot
  and preview schedules, the frame and texture-cache decisions, PNG and preview
  decoding, icon fitting, and the application catalog's admission rules and
  bounds. `src/laws.rs` states the properties that span several functions.
- `tests/` runs the library on concrete inputs.
- `app/` is the `knave-shell` program around it: Wayland and wgpu, file-system
  scanning, worker threads, and the floating-point layout and painting.
