# VoiceWire

A mixer for PipeWire: hardware and virtual input strips are routed to hardware
and virtual output buses, with per-strip gain, gate, mute, solo and mono, and
per-application routing of audio streams.

## Layout

- `src/` is the verified core, checked with Verus:
  - `model.rs`, `demo.rs`: the session (strips, buses, application routes) and
    every change to it, with the starting session;
  - `controller.rs`: how reported backend events change the session and when it
    is saved;
  - `persistence.rs`: what is saved of a session, how a save is restored, and the
    queue of pending saves;
  - `mixing.rs`, `mock.rs`: what a mixing command changes and reports, for the
    PipeWire backend and for the stand-in backend;
  - `pipewire.rs`, `json.rs`, `text.rs`: the PipeWire backend's rules (devices
    offered from a `pw-dump`, bus bindings, route links, port and link listings,
    application streams) and the text handling they rest on;
  - `ui.rs`: requests from the user interface and what it shows.
- `app/` runs the audio tools, the save worker, the meters (computed in floating
  point) and a line-based front end that takes one JSON request per line.
- `tests/` exercises the library.

Gains are held in thousandths of a dB, gates, levels and meter readings in
thousandths of full scale.
