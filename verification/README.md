# alfred_flutter_docs

Verified core of an Alfred workflow that searches the Flutter API documentation.

- `src/cli.rs`: the command-line grammar (`-q`/`--query`, `--query=`, `-v`, `-u`,
  short-flag clusters), specified by `parse_arguments`, and query normalization.
- `src/cli_laws.rs`: laws of that grammar, proved over `parse_arguments`.
- `src/items.rs`: the script-filter items built from search results, the
  placeholder and the web-search fallback.
- `src/models.rs`: the search-response fields the workflow reads.
- `src/query_url.rs`, `src/text.rs`: the calls into `url` and `std` text
  functions, and character helpers.
- `app/`: JSON decoding of search responses, conversion of items into
  `alfred_workflow_rs` items for rendering, `anyhow` error reporting.
