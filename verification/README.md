# AutoDesc

Generates human-readable descriptions of Wikidata items: short one-line
descriptions in many languages, and longer prose paragraphs for people
(English, German, Dutch and French). It runs as a small HTTP server with a
JSON API.

## Layout

- `src/` is the library, written in Verus. Every function there carries a
  contract that Verus proves: the parsing of ids, languages and formats, the
  validation of request parameters, the reading of Wikidata entities, the
  short and long describers, the media lists and thumbnails, and the pages
  the server sends. Calls into other crates (`regex`, `urlencoding`,
  `html_escape`) and a few standard-library string functions stand behind
  small wrappers whose contracts are trusted; each says in its doc comment
  what it claims.
- `app/` is the server around the library: HTTP routing, fetching entities
  and query answers from the Wikidata services, caches, rate-limit clocks,
  and the number formatting that needs floating point.
- `tests/` holds the tests; they run against the compiled library.

## Running the server

By default it listens on `0.0.0.0:8000`; `AUTODESC_ADDRESS`, `AUTODESC_PORT`
and the cache and rate-limit variables (`AUTODESC_ITEM_CACHE_TTL_SECS`,
`AUTODESC_ITEM_CACHE_SIZE`, `AUTODESC_OUTPUT_CACHE_TTL_SECS`,
`AUTODESC_OUTPUT_CACHE_SIZE`, `AUTODESC_RATE_LIMIT`,
`AUTODESC_RATE_WINDOW_SECS`) change that. Requests go to `GET /` with the
parameters `q`, `lang`, `mode`, `links`, `format`, `media`, `thumb`,
`user_zoom` and `callback`.
Browsers may call the API from pages on Wikimedia sites (`https://` and a
Wikimedia project domain or one of its subdomains) only.
