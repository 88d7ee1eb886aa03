# reader_parser

A parser and fetcher for book sources: descriptions of web sites, written as
JSON, that say how to search a site, read its tables of contents and read its
chapters. Rules are CSS chains, XPath, JSONPath, regular expressions or scripts.

The library under `src/` is verified with Verus. Its contracts say what every
function returns, over mathematical models of its data.

## Layout

- `src/util` — texts, bytes and addresses.
- `src/ext` — the crates that the library calls, behind functions whose
  contracts say what is relied on.
- `src/model` — books, chapters, sources and their rules.
- `src/parser` — rules: how they are split, filled in and evaluated on HTML, XML,
  JSON and text; what scripts see and the functions that they call.
- `src/crawler` — requests: how an address rule becomes a request, redirects,
  attempts, cookies, sessions and what a response is taken for.
- `src/executor` — the operations of a source: search, explore, info, toc,
  content and login.
- `src/eval.rs` — single rules, and pages that are already there.
- `app` — the C interface, the script engine and the network.
- `tests` — tests of the library, with the real crates and an engine in process.

## Scripts and sites

What a script or a site answers is not a function of what it is asked. A `Host`
records every question and its answer, and contracts say what is computed for
every sequence of answers that agrees with the record.

The sessions in use, with their variables, headers and cookies, belong to the
host, which lends them to the engine for each script.
