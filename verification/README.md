# Multi Track Split

A small desktop tool for organizing backups of multitrack tape recordings into
songs, auditioning them with a simple mix, and exporting each song for
remixing. A song is a range on the tape and says, for each track of the tape,
whether it uses it, where it joins and leaves, and how loud and where it sits
in the mix.

## Layout

- `src/` is the library, verified with Verus: the project and its songs, the
  editor as a machine from state and message to state and effects, what the
  waveform makes of the pointer, the plan of a mix, playback, the WAV format,
  file names and times. What it promises is stated in the contracts and in the
  proof functions whose names start with `law_`.
- `app/` is the program around it: the window (iced), dialogs (rfd), sound
  (rodio), decoding (symphonia), the project file (serde), and all arithmetic
  on floating-point numbers.
- `tests/` runs the library on concrete values, with the real encoder and
  decoder.

## Numbers

Samples, volumes and pans are single-precision numbers. The library holds them
by their bit pattern (`single::Single`): it orders them, moves them about and
rounds them to integers exactly, and leaves sums, products and gains to the
program.

## Paths

Paths are texts, written as on Unix or as on Windows (`path::PathStyle`). What
works on paths takes the style; a recording and the editor hold it, and the
program gives them that of the system it runs on.

## What is trusted

- `text.rs`: `String::push` appends a character.
- `formats.rs`: `quoted` is the `{:?}` form of a string, under the name
  `debug_text`.
- `flac.rs`: `flac_stream` calls the `flacenc` encoder. A stream that it gives
  has the head for its samples, with their digest (`flac_digest`); that it
  succeeds, and the bytes behind the head, are not promised.

## Exports

| Export | Format | Samples |
| --- | --- | --- |
| Mix | 32-bit float WAV | as mixed, never clipped |
| Mix | 16- or 24-bit WAV or FLAC | scaled to a peak of -1 dBFS |
| Multitrack | WAV or FLAC, one file or one per track | as on the tape, 16 to 24 bits |

FLAC holds at most eight tracks; wider songs become WAV files.
