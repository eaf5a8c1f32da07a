# rficus

A desktop front-end for [yt-dlp](https://github.com/yt-dlp/yt-dlp): paste or
drag links onto the window, pick a format preset and a folder, and each link
runs as its own yt-dlp process with a live progress row. Missing tools
(yt-dlp, ffmpeg, ffprobe) are fetched at startup and yt-dlp is kept current.

The crate is a verified library plus the program around it.

- `src/` is the library, checked by Verus: reading yt-dlp's output
  (`parse`), a job's bookkeeping and the queue (`job`), the settings file
  (`config`, over `rust-ini`), versions and release tags (`update`), the tool
  check's script (`bootstrap`), the update card and self-update states
  (`about`), the themes (`theme`), the download panel's decisions (`panel`),
  what a drop carries (`dnd`), and the text and number helpers they share
  (`text`, `num`).
- `app/` is the program: the window (winit, egui, a software renderer), the
  processes, the network, the file system, and the Windows drag-and-drop and
  taskbar hooks. It asks the library what to do next (which job to start,
  which step the tool check takes, which files a finished job leaves behind,
  which links a drop holds); what it computes itself is floating point (a
  job's percentage and speeds) and drawing.
- `tests/` runs the library on concrete cases.

Settings live in `ficus.ini` next to the exe.
