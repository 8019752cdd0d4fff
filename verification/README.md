# cyanrip_rs

A library for ripping audio CDs, verified with Verus: the paranoia re-read
engine, CUE sheets, log files and their FUN512 signatures, AccurateRip
checksums and lookups, naming of output files, and the WAV and FLAC writers.

Layout of `src/`:

- `cdda/` — the paranoia retry policy and rip state machine (`paranoia`),
  the frame-reading engine and its steps (`reader`), and the physical-drive
  reader (`linux_drive`).
- `audio/` — PCM data, the checks of the writers, WAV bytes (through hound)
  and FLAC bytes (through flacenc).
- `metadata/` — AccurateRip, MusicBrainz, cover art and disc ids.
- `cue.rs`, `runtime_cue.rs`, `track_meta.rs` — CUE sheets.
- `log_report.rs`, `info_report.rs`, `fun512.rs`, `hashing.rs` — reports,
  their signatures, and the hashes they use.
- `naming.rs`, `track_output.rs` — output paths and file planning.
- `track_read.rs`, `find_offset.rs`, `workflow.rs` — planning and reading
  tracks, and the drive offset search. The offset search is proved for any
  window reader it is given: which windows it asks for, and what it reports
  and finds for the windows it gets. The drive reader of this build has no
  backend, so every read from a real drive fails.
- `full_rip.rs` — the album tags and the summary text of a full rip.
- `cue_round_trip.rs`, `path_trim_law.rs`, `pregap_law.rs` — laws relating
  several functions.

Calls into outside crates (sha1, sha2, base64, crc32fast, hound, flacenc) and
a few std calls go through small trusted wrappers; their contracts, which
Verus takes on trust, say what each call returns, or give its result a name
where it takes pages to state (the SHA digests, the WAV and FLAC bytes). The
code around those calls is proved against those contracts. Reading a drive,
the network, files and the command line are outside this library.

`app/main.rs` is the command line program around the library: it reads the
options (with clap), verifies a log file, prints the CUE sheet of given
metadata, and plans a run; it reads no drive or disc image.
