# panda

A client for the panda-novel.com catalogue. It drives a browser through a
WebDriver session (`fantoccini`) and reads novel listings off the site's pages.

- `src/` is the library, verified with Verus:
  - `novel`: the catalogue's records and how a listing's texts become a `Novel`;
  - `cover`: the cover address in a listing's inline style;
  - `numbers`: reading and writing decimal counts;
  - `text`: splitting, trimming and debug-writing of texts;
  - `timestamp`: last-update times, read through `chrono` and written as it does;
  - `url`: search addresses, percent-encoded through `urlencoding`;
  - `navigation`: driver settings, section choice and scroll plans.
- `app/` is the program: browser sessions, page fetching and the main loop.
- `tests/` runs the library, partly against `regex`, `chrono`, `urlencoding`
  and the standard library.
