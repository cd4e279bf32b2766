# UltimateSlice media library

The media side of a video editor: proxies, thumbnails, waveforms, subtitles, motion tracking,
screenplay import and assembly, title fonts, prerender filters, generated music, cut-outs and the
caches around them. The library is written in Rust and verified with Verus: each function carries a
contract that says what it returns, and what holds across functions is stated as proof functions.

- `src/` is the verified library. It computes and decides; it opens no file, starts no process and
  runs no thread. What was read, probed or decoded comes in as plain values, and what is to be done
  comes out as plain values.
- `app/` is the program around it: files, processes, worker threads, GStreamer, GTK, the ONNX
  runtime, whisper and floating-point arithmetic.
- `tests/` runs the library on concrete values.

## Modules

| Modules | Subject |
| --- | --- |
| `script`, `fountain`, `fdx`, `xml` | Reading screenplays |
| `script_align`, `script_assembly` | Finding the scenes of clips, and assembling a timeline |
| `proxy_names`, `proxy_files`, `proxy_transcode`, `proxy_mirror`, `proxy_cache` | Proxies |
| `sidecars`, `voice_enhance_cache`, `render_replace_cache` | Rendered files and their eviction |
| `extraction`, `decoding`, `thumbnail`, `thumb_cache`, `waveform_cache` | Pictures and peaks |
| `stt_cache`, `music_gen`, `sam_cache` | Speech, music and cut-outs |
| `tracking`, `tracking_bindings` | Motion tracking and what follows it |
| `player`, `voiceover`, `reference_still`, `probe_cache` | Playing, recording, stills, probing |
| `prerender_filters`, `prerender_geometry`, `prerender_effects`, `prerender_titles`, `title_font` | Filters and titles |
| `project_health`, `replace_media`, `model` | Projects |
| `text`, `pieces`, `unicode`, `paths`, `numbers`, `order`, `keyed`, `scaled`, `digest`, `args`, `ids`, `cache_support` | What the others are made of |

Real numbers are held by their bit patterns (`numbers::Real`): the library carries and compares
them, and the program computes with them.
