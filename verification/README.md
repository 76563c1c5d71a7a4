# zot

The logic of `zot`, a command line for Zotero libraries, written in Verus: every
function of the library states what it returns or changes, and the verifier
proves it.

- `src/api` reads and writes the records of the services: identifiers (DOI,
  arXiv, ISBN, PubMed), BibTeX, MEDLINE and OpenLibrary records, and the requests
  and answers of Zotero's local API, its connector and its web API.
- `src/collections` assembles the collection tree, counts items over it, pairs it
  with the connector's tree-view IDs and resolves references to collections.
- `src/commands` holds what the commands decide: plans, refusals, summaries and
  answers.
- `src/index` cuts text into chunks, reads saved pages and extraction reports, and
  keeps the state of the index across runs.
- `src/search` merges ranked lists and reduces candidates to results.
- `src/output.rs` renders every answer for a person.
- `src/text.rs`, `src/lines.rs`, `src/json.rs` and `src/percent.rs` are the ground
  the rest stands on.

Files named `laws.rs` or ending in `_laws.rs`, and proof functions whose names
start with `law_`, state what holds across functions.

`app` is the program around the library: arguments, files, HTTP, the search
engine, the models and the extractors for PDF files and articles. It is ordinary Rust and is not
verified.
