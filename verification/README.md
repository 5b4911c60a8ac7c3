# legion_prof_viewer

The logic behind the Legion profile viewer's assistant tools and data
archive, written in Verus and proved against its contracts.

## Layout

- `src/` — the verified library.
  - `text`, `order`, `json`: characters and strings, text order and
    sorting, the JSON model the tools read.
  - `timestamp`, `summary`, `entry`, `archive`, `highlight`: time
    intervals, utilization resampling plans, entry paths, the archive
    writer's settings, tile sizing, the steps of its level loop (planning a
    level, closing it) with the law of the tile tree a write builds, the
    entry walk, timeline highlights and the selection banner.
  - `query`, `overview`: the read-only query guard, the row cap, query
    hints, markdown tables, slug membership, and the profile overview.
  - `source`: the source tree listing and the path checks of
    `list_files` / `read_code` (with the lexical confinement law).
  - `wiki`, `wiki_page`, `wiki_corpus`, `wiki_search`: the knowledge wiki's
    pages, index, reads and ranked search.
  - `http`: the tool server's request admission (Origin, method, bearer
    token), the approval route and response framing.
  - `tool_defs`: the advertised tool definitions.
  - `trace`: transcript directory choice, session ids, image notes, and
    the elision of image blocks from JSON values.
  - `transcript`, `eval`, `calendar`: reading an agent's streamed
    transcript, eval manifests, graders, prompts, hashes, UTC time text.
  - `spike`: the persistent-agent trial's line classification and verdict.
  - `panel_slugs`, `highlight_table`: the panel tree of a timeline window,
    its row slugs and visibility, kind filters and expansion, and the
    per-row table of highlight overlays.
  - `view_history`, `viewer`: the view range with its undo/redo history of
    zooms and pans, key bindings, and navigation requests.
- `tests/` — tests of the library.
- `app/` — I/O around the library: the database, the file system, sockets,
  processes, and the sections that format floating-point measurements.

Outside crates: `httparse` (request heads), `sha2` (SHA-256),
`percentage` (the integer percentages of pans) and `serde_json` (parsing
JSON text and writing JSON arrays) are called from the library through
trusted wrappers; `app/` uses `serde_json` too, and `duckdb` for the
database.
