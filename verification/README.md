# miniflux_reader

The verified core of a self-hosted reading platform (RSS/Atom feeds, EPUB
books, bilingual reading), written in Verus.

`src/` is the library; every function in it is verified against its
contract:

- `sentence`, `chunk`, `bilingual`: sentence splitting (Chinese, English,
  detected), chunking with overlap, bilingual HTML rendering, and the laws
  they keep (clean sentences, non-empty chunks, overlap, partition).
- `upload`: filesystem-safe names for uploaded files.
- `xml`, `archive`, `epub`: event-by-event XML reading and writing with
  `quick-xml`, zip entries with `zip`, and the EPUB reader (container,
  OPF, spine, chapters).
- `opml`, `feed`, `content`: OPML import/export, feed documents from
  `feed-rs`, readable-content extraction with `readability`.
- `proxy`, `routes`, `http_error`, `config`, `ui`: HTML post-processing of
  proxied pages, handler decisions, error responses, configuration
  defaults, and the front-end fixtures.

Calls into outside crates stand behind small trusted wrappers whose
contracts say what the crate's source shows, or name a result that is a
function of the arguments.

`app/` holds the I/O around the library: configuration loading, tracing,
files on disk, HTTP fetches, the sync loop and the page pipeline.
