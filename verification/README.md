# deck

A handheld ham-radio receiver for SDR cyberdecks: it drives `rtl_sdr`,
`airspy`, `dump1090`, `dsd-neo`, `multimon-ng` and friends, and turns their
output into live views (pagers, APRS, ADS-B, AIS, digital-voice calls,
FT8, scanner).

The library under `src/` is written in Verus: every function carries a
contract, and all but three are proved against it. The three
(`text::string_of`, `rec::utf8_lossy`, `parse::sbs::to_uppercase`) are thin
wrappers over std calls (collecting chars into a `String`, lossy UTF-8
decoding, Unicode upper-casing) whose contracts are trusted, not proved.

- `text` — character and string helpers with exact specifications
  (tokens, splitting, trimming, decimal numbers, UTF-8).
- `freq`, `bands`, `modes`, `device` — frequency entry and formatting, band
  plans, the mode registry, SDR kinds and USB detection.
- `config`, `pipeline`, `audio`, `doctor` — defaults, command templates,
  plan resolution (which tools, which center frequency, which decoder), the
  audio sink and the support report.
- `parse` — decoder output: multimon-ng (POCSAG, APRS), dsd-neo call
  fields, AIVDM with fragment reassembly, FT8 spots, SBS aircraft table.
- `sim` — signal simulators: POCSAG (BCH), AX.25/HDLC, Baudot, AIS
  sentences, voice-call and line feeds; laws show that what they encode
  decodes back.
- `keys` — the d-pad input contract of a mode screen: focus, frequency
  editing, the preset and open-in pickers, as a state machine.
- `scan`, `session`, `rec`, `sys`, `ui`, `dsp` — scanner state machine,
  pipeline event routing (stale runs dropped), live call and autorecord
  decisions, WAV headers and comments, mixer and
  battery parsing, screen and control layout, decimation planning and the
  pseudo-random generator.

`app/` is the command line around it: file and device I/O, running the
external tools, the audio synthesis of the simulator, and the TOML config
file.

There is no graphical front end here: the device's egui/eframe touch screen
is left out. Its screen-independent logic (menu tiles, control stacks, preset
rows, d-pad key handling) is in `src/ui.rs` and `src/keys.rs`; painting
widgets and spectra is floating-point drawing with no logic of its own to
verify.
