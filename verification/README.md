# airec

A Windows command-line screen recorder for AI agents, built around a library whose logic is
proved with Verus.

- `src/` is the verified library: error codes and exit statuses, lifecycle events and stop
  reasons, target resolution and output naming, settings precedence and parsing, the session's
  aggregation of target results, each target pipeline's decisions as a state machine, the detached-session protocol, mouse gesture recognition and
  its bounded timeline, frame geometry (even sizes, letterboxing, row packing, scaling), and
  the GIF pipeline (timestamp sampling, palettes, median-cut quantization, frame differencing,
  LZW and GIF89a encoding). `src/laws.rs` holds properties that span several functions, and
  `src/lzw_decoding.rs` writes out a GIF decoder and proves that it reads back every LZW stream
  the encoder writes.
- `tests/` exercises the library on concrete values.
- `app/` is the program around it: command-line parsing, configuration files, JSON output,
  Windows Graphics Capture, Media Foundation encoding and decoding, the mouse hook, the click
  ripples (floating point), threads and the control pipe.
