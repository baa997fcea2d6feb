# Driver Doctor

A Windows disk-space browser in the style of FolderSize: it scans folders, lists their
items by size, folds long tails of small items, and asks an OpenAI-compatible chat service
for cleanup advice, including an interactive drive "health check".

## Layout

- `src/` — the library, verified with Verus. It holds everything the program decides:
  size aggregation and ordering of scanned trees (`scan`), size formatting (`format`),
  folding and the diagnostic documents given to the AI (`structure`), the health-check
  state machine (`health`), chat request bodies and reply handling (`request`, `json`,
  `ai`, `prompts`), the directory table and its sorting (`view`), the handling of scan and
  AI task messages (`session`), the layout of answers (`markdown`) and the cleanup helper
  scripts (`report`).
- `tests/` — tests of the library.
- `app/` — the window (egui), disk access, the HTTP client and the worker threads. It reads
  the disk and the network and hands plain values to the library.
