# pdfer_forms

AcroForm inspection and filling for PDF documents, verified with Verus.

The library (`src/`) works on a plain-value model of a PDF document
(`model.rs`): objects, dictionaries that keep their insertion order, streams,
and the indirect-object table with reference-following lookups. On that model
it reads a document's form fields (`fields.rs`, `inspect.rs`), fills them and
regenerates or flattens their appearances (`fill.rs`, `appearance.rs`),
groups and renames the form tree, removes annotations and reattaches orphan
widgets (`edit.rs`), and rotates pages or computes which pages a split drops
(`ops.rs`); it also merges documents into one page tree (`merge.rs`).
`compat.rs` offers the reader and writer types with pypdf-style
method names. Every public function has a contract over the model's views;
`laws.rs` holds the properties that relate several operations.

The floating-point part of a text appearance (box size, font size,
baseline), and the merging of page-tree root dictionaries, are computed by
functions the caller passes in.

`app/` connects the library to lopdf: it converts lopdf documents into the
model and back, loads and saves files, computes the floating-point layout,
renumbers and prunes the documents a merge takes and gives, runs the
operations that are lopdf's own (deleting pages, encryption), and the
benchmark.

`tests/` exercises the library on documents built with lopdf.
