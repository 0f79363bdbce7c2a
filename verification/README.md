# mkvpeel

Removes unwanted audio and subtitle tracks from video files and Blu-ray folders: a
directory is watched, and what appears in it is remuxed with `mkvmerge` into another
directory, keeping for each wanted language the audio and the subtitle track that score
best against the codec and name preferences given on the command line.

Layout:

- `src/` — the verified library (Verus):
  - `text.rs`: decimal rendering, ASCII case folding, UTF-8 widths, the standard
    library's Unicode case mappings;
  - `util.rs`: the pretty name and destination file name of a published file, what the
    scan does with a directory entry, languages of BCP 47 tags, names without extensions;
  - `common.rs`: naming rules that read a year only after a non-digit and write it back
    as a number;
  - `args.rs`: track preferences (`expression:score`);
  - `json.rs`: what `mkvmerge -J` reports of a file;
  - `peel.rs`: the choice of tracks per language and of the best playlist of a disc, and
    the `mkvmerge` options that select them;
  - `bdmv.rs`, `mkv.rs`: streams of Blu-ray playlists and Matroska tracks.
- `app/` — the program: command line, file system, `mkvmerge` runs, logging.
- `tests/` — tests of the library.
