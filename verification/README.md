# piano

A physics-based piano synthesizer, written in Rust and verified with Verus.

- `src/` is the library. Its functions state what they compute and are proved to
  compute it: loading of MIDI files, the timeline, the synths (`baseline`,
  `modal-v1`, `modal-v2`), the presentation chain of equalizer, room and
  compressor, and the tuning engine. Believed, not proved, are the contracts of
  the five functions of `src/midi.rs` that call the MIDI parser `midly` and read
  what it returns.
- `app/` is the program around it: offline rendering to WAV, live playing from a
  MIDI keyboard, and the bindings for the browser.
- `tests/` run the library, bit for bit, against plain formulas.

## Numbers

Samples and levels are carried as bit patterns of IEEE 754 numbers
(`src/number.rs`). Comparing, clamping and rounding work on the bits. The steps
of arithmetic come from the host (`src/arith.rs`, `src/wide.rs`): an evaluator
that gives each step one number. Contracts state each quantity as the steps that
it is made of, in their order, so that two hosts whose arithmetic agrees produce
the same audio. Laws about size, sign and order name the facts of rounded
arithmetic that they rest on (`src/rounding.rs`).

## Use

```sh
piano note 60 96 -o c4.wav --synth modal-v2
piano midi aria.mid -o aria.wav --synth modal-v2 --auto-pedal --legato
piano bench --synth modal-v2
piano live --list
```

`modal-v2` reads the measured parameters of the instrument from
`data/calibration.json`, beside the program or in the working directory, or from
the file that `PIANO_CALIBRATION` names. In the browser the page hands them over.
