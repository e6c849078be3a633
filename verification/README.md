# semgrep

Semantic code search against a remote NextPlaid API: source files are split into code
units with tree-sitter, uploaded for embedding, and searched by meaning.

The library in `src/` holds the logic, each function with a contract proved by Verus:

- `parser`: code units (functions, methods, classes and other declarations) from a syntax
  tree, with their names, signatures, lines and the text sent for embedding.
- `paths`, `scan`, `order`: path components, file names and extensions, the languages of
  files, ignored directories, relative paths, and the selection and order of the files
  that are indexed.
- `index`: the incremental indexing run over the recorded state: which files are parsed
  again, which entries are kept, which paths are removed, and the counts reported.
- `api`, `client`: search filters, base URL and index name resolution, the state file's
  place, endpoint URLs, how API answers are judged, error messages, and the wait for the
  index to hold the uploaded documents.
- `cli`, `display`: search plans, interactive input, and the human-readable output.
- `text`: the character-level operations the rest is built on.
- `laws`: properties that span several functions.

`app/` is the command-line program around it: argument parsing, file system walks and
reads, HTTP requests, JSON, and printing.
