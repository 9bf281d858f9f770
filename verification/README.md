# grayline_apps

The decisions behind the Grayline RTTY and WEFAX applications, written in
Verus and proved against their contracts.

## Layout

- `src/` — the verified library.
  - `input.rs` — what may be typed into the transmit field, and how pasted
    text is brought into shape.
  - `scrollback.rs` — the transcript of a contact: received and sent text,
    line breaks, trimming, and the runs it is drawn in.
  - `transmit.rs` — the draft, the queue and the message on the air: queueing,
    echoing what was played, aborting and giving text back.
  - `macros.rs` — the station, the contact, the shipped macros, and filling a
    macro's `${...}` names in.
  - `clock.rs` — one reading of the station's clock, local and universal, and
    the date, time and stamp written from it.
  - `library.rs` — reading the lists of macros and set messages from their
    TOML files, and writing the shipped lists for a file that is missing.
  - `paths.rs` — where the files live, as path components.
  - `phase.rs` — the phases a transmission passes through, and what a frame
    does about them.
  - `publish.rs` — when a receive worker hands an observation over.
  - `rx.rs`, `chart.rs` — what the RTTY and WEFAX receivers report, and how an
    uncollected report folds into the next.
  - `strip.rs` — the WEFAX strip, its texture's capacity and uploads.
  - `scope.rs` — the scope window's trace and band.
  - `history.rs`, `recording.rs`, `devices.rs` — naming and checking saved
    charts, checking recordings, and choosing a sound device.
  - `menu.rs` — flattening the menu model.
  - `sstv_menu.rs` — the SSTV application's menu, built from its state.
  - `session.rs` — the steps a WEFAX reception takes for the controls, and
    what each step's result means.
  - `text.rs` — moving text between strings and character sequences.
- `tests/` — tests of the library, run against the compiled crate.
- `app/` — the windows, the sound devices, the threads and the files, around
  the library.

`jiff` is called from the library, for the clock a macro or a chart name is
written from, and `toml_edit` for reading and writing the list files; the
other outside crates are called from `app/`.
