# libarchive_oxide

Verified parts of an archive library: outer filters and their envelopes, safe
paths, ISO 9660 images, OCI image layers, package profiles, random-access
sources and provider registries.

- `src/` is the library. Its functions state what they return, and Verus proves
  it. What the coders of other crates do is stated, unproved, at the functions
  that call them; where a result rests on a caller's own source or provider, it
  is stated over that one's replies.
- `tests/` runs the library on concrete values.
- `app/` holds what needs threads, files and readers.
