# ox_browser

The verified core of a headless-browsing, crawling and content-extraction
toolkit, written in Verus.

- `src/` is the library. Its logic is verified: URL
  normalisation and scope rules, the crawl frontier, deduplication and
  budgets, robots.txt caching, sitemap parsing and discovery, HTML metadata
  extraction, content extraction (format conversion and the recovery of
  headings, taglines, announcements and footer content that noise filtering
  drops), Markdown scanning, the fingerprint oracle, form handling, body
  size caps, bounded caches and the decisions of the crawl loop. Calls into
  outside crates (`url`, `regex`, `texting_robots`, `quick-xml`, `flate2`,
  `xxhash-rust`, `blake3`, `rand`, `dom_query`, `htmd`) sit behind small trusted wrappers whose
  contracts say what those crates do; those wrappers are believed, not
  proved.
- `tests/` exercises the library on concrete values.
- `app/` is the unverified shell: serde wire types, the floating-point
  content scorer, mouse paths, and the tokio-driven crawl and discovery loops that ask
  the library what to do next.
