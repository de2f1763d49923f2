# sideview

A visual side channel for CLI agents: an agent writes typed blocks into a
`.sv` page file, and a local daemon renders the page in the browser, patches
it live as the file changes, and carries the user's comments back to the
agent. The model names the thing; the daemon fetches and renders it.

This crate is the part of sideview whose behaviour is stated and proved with
Verus: the `.sv` format and its editing verbs, the block renderers (prose,
markup, html, diff, csv, ask, notes, extension frames), the live view's
reparse diff, the watch and monitor state machines, the daemon's request
decisions, session resolution and the encodings that tie ids to files and
URLs.

## Layout

- `src/` — the verified library, one module per concern:
  - `format`, `format_laws` — the block-document grammar; `parse` is proved
    to compute a fold over the file's lines, its block ranges are proved to
    be in source order without overlap, and a serialized block parses back
    as itself when no body line is an opener or the block's own closer.
  - `edit`, `edit_laws`, `rewrite_laws` — append, update, remove, page
    properties, the page's prose edit, and what each promises of the page
    that reads back.
  - `render`, `diff`, `csv`, `ask` — what each block type renders as.
  - `poll` — effective block ids, page rendering, the surgical reparse diff,
    the props the pages event carries.
  - `ops`, `monitor` — watching for feedback and delivering it to Codex.
  - `daemon`, `cli`, `session`, `store`, `config`, `ext`, `funnel`,
    `netcheck`, `spec`, `skill`, `models`, `text` — the smaller decisions.
- `tests/` — tests against the compiled library.
- `app/` — the command line for the file-level verbs (authoring, update,
  remove, page properties, page removal and promotion) around the library.

Calls into `comrak`, `diffy`, `similar`, `csv`, `percent-encoding`,
`mime_guess`, `sha2`, `serde_json`, `uuid` and a few std functions go through
small trusted wrappers whose contracts name or state what those functions
return; everything around them is verified.
