# seeklocal_core

The core of a local, private document search: it indexes UTF-8 text and Markdown
files of chosen folders into a SQLite database with an FTS5 trigram index, and
searches file names, paths and contents in Japanese and English.

`src/` is the library, verified with Verus:

- `text` — characters, ASCII case, substring search, trimming;
- `terms` — turning a query into search terms and an FTS5 prefix query, and
  deciding whether a text matches a term (ASCII terms at word starts);
- `excerpt` — highlighted snippets and the summary embedded for meaning search;
- `discovery` — which folders are walked and which files are indexed;
- `extractor` — size limit, UTF-8 decoding and BLAKE3 fingerprint of a file;
- `index` — the SQLite-backed index: indexing a walked folder, keyword search,
  statistics, meaning-search bookkeeping;
- `db` — the SQLite calls, through `rusqlite`;
- `laws` — properties proved of the rules above.

`app/` holds the file-system walk, file reading, opening files in the operating
system, the ONNX embedding model (`fastembed`) with its floating-point ranking, and
the desktop commands.
