# jonotune

A singing tuner: it captures the microphone, detects the sung pitch and draws
a scrolling, octave-folded pitch history with a piano keyboard beside it.

- `src/` is the verified library (Verus):
  - `notes` — pitch classes, octaves and note names ("A4", "C#3", "B-1");
  - `spectrograph` — the fixed-size pitch history (a ring buffer read oldest
    first) and the layout of the drawn pitch trail;
  - `window` — the buffer of recent samples cut into half-overlapping
    analysis windows;
  - `pitch` — the detector's configuration and window length;
  - `capture` — the lock-free queue (`ringbuf`) from the audio thread.
- `app/` is the eframe/egui application, the `cpal` and Web Audio backends
  and the floating-point analysis and drawing.
- `tests/` runs the library on concrete values.
