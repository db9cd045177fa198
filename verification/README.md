# stillcast

An AV1 bitstream assembler for static-image videos: it takes a keyframe and
one inter frame from a real encode and expands them into a long stream whose
other temporal units only show the stored frame again.

The library under `src/` is written in Verus. Every function states in its
contract what it returns for each input, and the contracts are proved.

| module | role |
|---|---|
| `bitio`, `bytes`, `text` | bits, integers in bytes, text of numbers |
| `obu` | OBU headers, sizes and payloads |
| `seq_header` | sequence headers: parse, emit, declare timing or a decoder model |
| `frame_header` | the front of a frame header |
| `uheader` | frame headers walked to their ends, and bits put into them |
| `ivf`, `container` | IVF files; OBU streams and Annex-B read as IVF |
| `assemble` | picking the pair, the plan of the output, the output itself |
| `api` | bytes in, IVF bytes out |
| `inspect` | what a stream holds, and the checks on it |
| `adts`, `mp4` | AAC frames in, MP4 files out |

What holds across functions stands in public proof functions, among them:

- `seq_header::parse_then_emit_is_exact` and `emit_then_parse_is_exact`;
- `uheader::rescan::flagged_header_scans_the_same`: a header with the removal
  flag put in walks the same under a sequence header that declares the model;
- `assemble::gop`, `assemble::seek`: the plan has every frame, every segment
  starts with a keyframe, no frame is a whole GOP behind its keyframe, and a
  golden stands in front of every place that shows it again;
- `assemble::skipping`: frameless, re-shown and invisible temporal units do not
  change the pair;
- `inspect::single::report_lists_every_frame`;
- `inspect::passing` and `inspect::analyzed`: assembled streams pass the checks;
- `api::file`: an expanded file reads back, has a rate, passes the checks and
  does not depend on the container of its input.

`app/` is the command line and the C interface. `tests/` runs the library on
concrete streams.
