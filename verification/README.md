# trackforge

TrackForge detects the audio tracks of a video file with `ffprobe`, converts
one of them or removes some with `ffmpeg`, and can replace the original file
once the work has succeeded.

Layout:

- `src/` — the library, verified with Verus:
  - `text.rs`: character sequences — decimal numbers, trimming, searching,
    lines and splitting;
  - `ffprobe.rs`: the probe report and the audio tracks in it, with their labels;
  - `ffmpeg.rs`: target formats and modes, and the ffmpeg command lines that
    convert a track or remove tracks; reading ffmpeg's progress lines;
  - `paths.rs`: names of the output, temporary and backup files, and the
    check of selected videos;
  - `cli.rs`: decisions of the command-line program (index checks, cleaning
    of pasted paths);
  - `jobs.rs`: checks of a processing request, and the local space a job needs;
  - `plans.rs`: the jobs of the desktop application — what a conversion,
    removal or processing request asks of its file, the paths it writes,
    and the steps after ffmpeg (the original is replaced only after ffmpeg
    succeeded);
  - `logs.rs`: writing and reading session log lines, and the list of log
    sessions;
  - `tools.rs`: where the ffmpeg programs are looked for;
  - `error.rs`: the errors and their messages.
- `app/` — the command-line program: arguments, prompts, running ffprobe and
  ffmpeg, progress display and file replacement; `desktop.rs` runs the
  conversion and removal jobs of the desktop application without its
  window. The desktop window itself (Tauri and its plugins, thumbnails,
  history, local copies) is not part of this crate.
- `tests/` — tests of the library.
