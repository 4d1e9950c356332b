# backend

The verified core of a toolkit for the on-screen display (OSD) of FPV video
recordings, written in Verus.

`src/` holds the library. Its functions are proved against their
contracts, except four small trusted wrappers around outside calls, whose
contracts are taken on trust: `hex_decode` (`hex::decode`), `captures_all`
(`regex::Regex::new` and `captures_iter`), `char_is_alphanumeric` and
`char_text` (`char::is_alphanumeric`, `char::to_string`). The modules:

- `frame` — the binary OSD frame: a timestamp and a 53 x 20 grid of glyph
  indices; decoding, encoding and the laws that relate them.
- `artlynk` — decoding the MSP DisplayPort payloads that Artlynk cameras
  store as SEI user data, and the steps of extracting an OSD from a video.
- `overlay` — the character size for a frame, where each glyph is drawn,
  and alpha blending of one RGBA buffer onto another.
- `encoders` — the ffmpeg encoders worth probing on each platform.
- `srt`, `template` — reading the telemetry lines of SRT subtitle files.
- `video_info` — the checks made on a probed video stream.
- `carving` — signature search and scan-log reading for image recovery.
- `text`, `pattern` — text helpers and regular-expression matching.

`app/` is the ordinary Rust around it: running ffmpeg and ffprobe, files,
floating-point sizing and resampling, and the command-line tools.
`tests/` exercises the library from outside.
