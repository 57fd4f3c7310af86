# jviewson

A JSON viewer: a tree view with expandable objects and arrays, a read-only text view of
the pretty-printed document, search with highlighting in both views, and optional reload
when the file changes.

- `src/` is the verified library (Verus):
  - `text.rs`: characters, ASCII lowercase, whitespace trimming, decimal text, UTF-8 widths,
    substring tests.
  - `search.rs`: query normalization, line splitting, text search with byte columns, the
    highlighted segments of a line, preview truncation, match stepping.
  - `json.rs`: the document model, JSON parsing and pretty-printing (serde_json, behind
    trusted wrappers), reading a file's text into a document, node labels and paths, the
    tree search, node previews.
  - `viewer.rs`: the viewer's state and every operation on it, with its abstract model.
  - `startup.rs`: `file://` command-line arguments.
  - `laws.rs`: properties of the library as a whole, proved.
- `app/` is the window (eframe/egui), file I/O and the file dialog (rfd).
- `tests/` runs the library on concrete inputs.
