# sdroxide_input

Control inputs for an SDR client, verified with Verus: the Icom RC-28 remote
encoder, USB-HID device discovery, and the bindings that turn keyboard chords,
mouse buttons, MIDI controls and the RC-28 into actions.

## Layout

- `src/` — the verified library.
  - `proto` — the RC-28's wire format: reports, the button decoder, knob
    detents, LED and firmware requests.
  - `rc28` — the event queue between worker and app, and every decision the
    worker that owns the device makes (`Worker`).
  - `link` — the app's side of the RC-28 link, and the browser bridge.
  - `hid` — HID enumeration and framing rules per platform: report-id
    framing, `hidraw` ioctl numbers and uevent files, Windows interface
    paths, macOS entries and the bounded input-report inbox.
  - `input` — the binding vocabulary: actions, chords, bindings, MIDI
    messages and relative encodings, the settings and their migration.
  - `runtime` — held controls, RC-28 frames, band stepping, MIDI LEARN.
  - `midi` — routing one frame of MIDI input to the bindings.
  - `dispatch` — keys and mouse buttons that fire, presses and releases,
    letting go of holds, the hidden window.
  - `resolve` — what a button sample means for its action and the command it sends the radio; mode stepping.
  - `editor` — the Controls tab's edits.
  - `radio`, `text` — bands, modes and VFOs; text helpers.
- `app/` — ordinary Rust around it: the HID backends (`hidraw`, Windows,
  macOS), the RC-28 worker thread, the frame-by-frame input runtime, and the
  floating-point tuning arithmetic.
- `tests/` — tests of the library.

Quantities that are floating point where they are used (steps, timeouts) are
carried in the library as the bits of the `f32` or `f64` they are.
