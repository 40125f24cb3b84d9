# AstraGlyph

An engine that renders scenes as glyphs. `src/` is its verified core: every
function there carries a contract that Verus proves.

- `assets/`: PNG decoding with its DEFLATE inflater, OBJ meshes, and a watcher
  that reports changed files.
- `engine/`: errors, a strict JSON parser, comparison of single-precision
  numbers by their bits, and plain values as bytes.
- `audio/`: WAV decoding, the buffers of the output device, the mixer's voices
  and a noise source.
- `ascii/`: the glyph atlases, colour palettes, merging of far cells, the cell
  grid and the text overlay.
- `shell/`: settings, console commands, the menu, keyboard routing, frame
  planning and the status display.
- `text.rs`: texts that the other modules read and build.

Numbers with a fraction do not occur in `src/`: they are texts where they are
read from a file, and bit patterns where they are compared. `app/` is the
ordinary Rust around the library: files, windows, sound output, and what
computes in floating point.

Public proof functions named `law_..` state what holds of several functions
together.
