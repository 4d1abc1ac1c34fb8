# Kaifuku

Kaifuku recovers and repairs files: it carves files from block devices
with the PhotoRec engine, recovers deleted files from NTFS volumes, and
rebuilds damaged JPEG, PNG, GIF, BMP, RIFF and ZIP files. It also offers
binary tools: a hex editor, a signature scanner, header templates, a live
USB writer and a recovery log viewer.

## Layout

- `src/` is the library, verified with Verus: file type detection,
  analysis and repair of damaged files, the NTFS parser and recovery pass,
  the decisions around the carving scan, and the logic of the tools. The
  contracts state results over spec functions; where a result goes through
  a device read, they say what is returned whatever the read gave and what
  is owed when every read succeeds. The public proof functions named
  `lemma_*` state laws of the library (for instance that a repaired JPEG
  starts with SOI and ends with EOI, or that a record whose fixups were
  applied passes them again unchanged when its update sequence array lies
  apart from the sector ends they rewrite).
- `tests/` runs the library on concrete inputs.
- `app/` is the command-line program around the library: file and device
  I/O, the PhotoRec and jpegrepair bindings, the scan worker thread, the
  configuration file and the `dd` process.
