# gamecrawler

Builds PDF catalogs of board games from BoardGameGeek data, with optional
"playable on Board Game Arena" badges.

The crate is split in two:

- `src/` is the verified library (Verus). It holds the data model and the
  decisions: name normalisation and the Board Game Arena catalog index,
  parsing of the BGG list entries and browse table, the listing order,
  paging and de-duplication of a designer's credit list, the top-N picker,
  cache paths, the FlareSolverr request/reply handling, HTML escaping and
  the catalog page itself. Each public function states its result in its
  contract; the laws that span several functions are public proof
  functions (`lemma_*`).
- `app/` is the program around it: argument parsing, HTTP, the file cache
  on disk, headless Chrome, and the serde copies of the library's records.

Modules of `src/`:

| module | contents |
|--------|----------|
| `text` | character classes, trimming, decimal parsing and printing, substring replacement |
| `bga_match` | `normalize`, the catalog text format, `BgaIndex` and tagging games with their Board Game Arena page |
| `bga_catalog` | when the catalog page has finished loading, its game links read into `(slug, name)` entries, and the catalog text they are saved as |
| `bgg` | `LinkedItem`, `ThingDetail`, `Game`, the listing order, credit-list paging |
| `popular` | the browse table, the year window and the top-N picker |
| `render` | escaping, number formatting, the game card and the catalog pages |
| `cache` | where cached records live |
| `flaresolverr` | the solver request and what its reply means |
| `clock` | the wall clock, and the UTC stamp and year of a moment given in seconds since the epoch |

The tests under `tests/` run the compiled library.
