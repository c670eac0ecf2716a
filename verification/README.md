# fontspace

A bitmap-font document model with strict 1:1 ROM export, verified with Verus.

A FontSpace document holds character sets (code points and labels), glyph sets
(fixed-size bitmaps per code, on named pages, with guides) and export configs that
map ROM address lines and data bits onto glyph pixels. The library checks documents
against their structural invariants, validates and renders ROM images, reads and
writes the canonical stored form, and carries the pure logic of the editor and the
command line.

## Layout

- `src/` — the verified library. Each public function states its result in its
  `ensures` (ids are stated as what the injected generator mints, which for the
  sequential generator fixes them and for the random one only their UUID version); the `law_*` proof functions state properties that span several
  functions (round trips of the stored form and of fragments, that the saved form of a
  valid document or fragment loads again, involutions of the
  bitmap and region transforms, the one-to-one correspondence between glyph pixels
  and ROM bits of a validated export).
- `tests/` — executable tests of the library.
- `app/` — the unverified edges: JSON through `serde_json`, atomic file writes, and
  the file-level commands.
