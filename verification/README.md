# chapterize

Apply YouTube-style chapter markers to a video with ffmpeg:

```
00:01:26 - The Nameless City
00:33:12 - The Hound (1/2)
```

The library (`src/`) is verified with Verus:

- `text` — Unicode white space and decimal digits, `trim`, conversions between
  `str`, `String` and character vectors.
- `chapters` — the chapter-line grammar (`HH:MM:SS`, `H:MM:SS`, `MM:SS`, then
  ` - ` and a title), chapter lists (first bad line, empty list, order), the
  FFMETADATA text with its escaping, and laws about them.
- `video` — choice of the video among the files of a folder, and the default
  output name `<stem>.chapterized.<ext>`.
- `ffmpeg` — locating ffmpeg/ffprobe, the ffmpeg command line, and the run
  protocol as a state machine (`Session::step`).
- `error`, `cli` — the error type and the command line.

The program (`app/`) does the I/O: it reads the files, scans the folder, runs
ffprobe and ffmpeg as the run protocol asks, and prints errors.
