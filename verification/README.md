# compactor

The decision logic of Compactor, a Windows GUI that applies WOF (Windows
Overlay Filter) filesystem compression to folders, as a library verified with
Verus, and the Windows program around it.

- `src/` — the verified library:
  - `paths.rs`: a model of Windows paths (prefix, root, components), their
    normalised comparison form and the "at or below" relation;
  - `text.rs`: character-level helpers (ASCII case, whitespace trimming, search);
  - `config.rs`: settings, their defaults and validation, worker priority names,
    and exclusion patterns compiled with `globset`;
  - `folder.rs`: the analysis result of a folder (groups of files with exact or
    saturating totals), worker counts, file classification, cluster rounding,
    HDD sampling plans and target-folder validation;
  - `directstorage.rs`: finding the game roots that contain the DirectStorage
    runtime, and collapsing nested roots;
  - `compression.rs`: when an analysis estimate may be reused;
  - `backend.rs`: keeping DirectStorage games out of compression, the viewer
    of compressed files, WOF preflight, run control and result bookkeeping.
- `tests/` — tests of the library on concrete values.
- `app/` — the Windows program: GUI, file system and volume queries, worker
  threads, and the floating-point compressibility estimates.
