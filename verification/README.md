# rsz

A parser for RSZ documents, the serialized data files of the RE Engine, verified with Verus.

- `src/` is the verified library. `rsz::stream` reads a byte slice; `rsz::content` turns a
  content section into objects, driven by a `LayoutMap`; `rsz::user` and `rsz::Rsz` read whole
  documents. Every parsing step is specified by a spec function over the document's bytes
  (`spec_content`, `spec_user`, `spec_rsz`, ...), and `rsz::laws` proves properties that hold
  for every input. `hex` reads the hexadecimal keys of layout files; `transparent` decides
  which objects are written out as their only value.
- Inputs on which parsing aborts (an alignment of zero, a root index past the instances, a
  missing interned string, ...) are left out of the `parse` functions by their preconditions;
  the `read` functions report them as `Failure::Panic`.
- Floating point values are held as their bit patterns and UUIDs as their bytes.
- `app/` holds file and reader entry points, JSON layout loading with serde, JSON output, and
  value types with decoded floats and UUIDs.
