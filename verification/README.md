# audio_helper

File-level audio utilities on top of `ffmpeg` and `ffprobe`: probing a file,
converting it, cutting a slice, joining files, splitting into fixed-length
chunks, mixing a room-tone bed under speech, writing silence and decoding to
PCM.

## Layout

- `src/` is the verified library. Every operation is a function from what was
  answered so far to its next step: a request for outside work (is this path a
  file, what does `ffprobe` report, run `ffmpeg` with these arguments, ...) or
  its final result. Its contract states exactly which request comes next and
  which result ends the exchange; the laws of the library (which checks come
  before `ffmpeg` runs, which answers a success rests on, how a file is split)
  are proof functions beside the operations. Times that operations work
  with are whole microseconds; a duration that `ffprobe` reports is read as
  the exact decimal number its text writes.
- `app/` performs those requests with real processes and files, converts
  seconds to microseconds and back, rounds a reported duration to the
  nearest `f64`, decodes `f32` samples, parses `ffprobe`'s
  JSON with `serde_json`, writes WAV files with `hound`, and offers the
  path-based API (`convert(input, output, &options)` and so on).
- `tests/` drive the library's operations with scripted answers.
