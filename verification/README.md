# ytdl

A small YouTube downloader front end built on the `yt-dlp` crate, with its
logic verified by Verus.

- `src/` — the verified library: URL recognition and playlist-parameter
  removal (`url`), file-name sanitising (`naming`), quality selection
  (`quality`), the download plan for a URL (`plan`), progress-log lines
  (`messages`), the window's state and decisions (`window`), the command-line
  arguments as plain values (`cli`), and character helpers (`text`).
- `app/` — the desktop program: the egui window, the download thread and the
  calls into `yt-dlp`, all driven by the library's decisions.
- `tests/` — tests of the library.
