# midi_fighter_tui

A terminal editor for DJ TechTools Midi Fighter controllers, speaking their
MIDI system-exclusive protocol. The library under `src/` is verified with
Verus; the terminal program under `app/` draws it and talks to the MIDI
ports.

## Layout

- `src/protocol/` — the wire format: requests, frame envelopes, tagged
  configuration replies folded into snapshots, bulk-transfer chunks for the
  pad colour buffers, the device registry and staged edits.
- `src/transport/` — the `MidiTransport` trait a MIDI backend implements,
  `Recorded`, through which the editor reaches a backend and which keeps a
  record of every call made on it with its answer,
  port-name classification and the list of candidate devices built from the
  port names a backend sees.
- `src/app/` — the editor: its state and invariant (`state`), the actions
  and the reducer that applies them, the pad grid of the Midi Fighter 64,
  the commands that talk to the device (`commands`, `ingest`), the key
  bindings, and `App::dispatch`, which lets an open modal block everything
  but the actions it allows.
- `src/view.rs` — the text each screen shows.
- `app/` — the terminal program: the event loop, the midir backend, the
  ratatui drawing and snapshot export (serde, JSON and TOML).
- `tests/` — tests that run the library against scripted transports.

## Properties proved

Every command states exactly which calls it makes on the backend, in what
order and with what bytes, and what it does with each answer: for example
a rescan scans at most four times, stopping at the first answer that finds
devices, and an apply sends each planned message once, in order, logging
the frames it is answered with. Besides the contract of every function,
the library proves, among others:
that a modal blocks every action it does not allow, with state and
transport untouched; that a pad colour buffer written as bulk-transfer
frames is read back whole, in whatever order the frames arrive; that decoded replies list the registry's
settings first, in registry order, then the others by tag; that undoing
right after an edit drops exactly that edit, and after a pad colour step
leaves nothing staged; that no key press asks for a
blocked action; and that the editor's invariant (cursors on the grid, an
event log of at most 200 entries, small setting values) holds after every
dispatch.
