# rcompare

A file and directory comparison toolkit whose core is verified with Verus.

- `src/` is the verified library: diff/patch models, the parsers of the
  unified, context, normal, ed and RCS formats, the patch serializer and
  apply engine, three-way merge classification, tree comparison and sync
  planning, the hash cache, the decisions of file operations, resumable
  copies and scans, and the specialised CSV, Excel, JSON, image and binary
  comparisons, including decoding images and reading their EXIF data,
  and BLAKE3 hashing of file contents fed chunk by chunk, with the byte
  ranges of the quick partial hash.
  Each public function states its result in `ensures` over spec models;
  the laws that relate several functions (apply/unapply, blend then apply
  then reconstruct, blending and serialization, merge symmetry and
  automatic resolution, get-after-put in the cache, path quoting, one-way
  sync plans, and others) are public proof functions.
- `app/` is the command-line program around it: argument handling, walking
  and reading files (handing their chunks to the library's hasher),
  reading spreadsheets, JSON and YAML (whose numbers are floating point),
  the perceptual image measure and percentages, and printing reports.
- `tests/` exercises the library on concrete values.

Calls into the `regex`, `csv`, `blake3`, `image`, `kamadak-exif` and `uuid`
crates, and into std's `String::push` and `str::to_lowercase`, stand
in `src/` behind small trusted wrappers whose contracts say what is assumed
of them.
