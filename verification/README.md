# Community Search

A self-hosted, federated search engine. An administrator groups crawl targets
into collections; the engine crawls them politely, indexes their pages, answers
searches, and forwards searches to peers. Engines tell each other which engines
they know.

The rules of the engine are a library whose behaviour is stated in contracts and
proved by Verus. The program around it moves data between the library and the
network, the database and the index on disk.

## Layout

- `src/crawler` — canonical URLs and prefixes, links and text of pages, sitemaps,
  robots rules, what follows from a fetched page, and the run over a target
- `src/index` — when pages are committed, the journal of what a commit made
  durable, and the query language
- `src/federation` — peers, their health, forwarding of searches, and gossip
- `src/api` — access, rate limits, search streams, the tool for agents, and the
  administrator's requests, with export and import
- `src/db` — rows and the rules by which they change
- `src/auth`, `src/config.rs`, `src/protocol.rs` — tokens, configuration, versions
- `app` — the server: HTTP, SQLite, Tantivy and the tasks that run in the background
- `tests` — the library from outside

## How the contracts are written

Every data type has a model made of sequences, maps and unbounded numbers, and
contracts speak of models. What several functions promise together is stated as
a public proof function at the end of the module it belongs to.

Calls into other crates stand in small functions marked
`#[verifier::external_body]`. Their doc comments say what is taken from the other
crate without proof. Where that takes more than a few lines to say, the result
has a name, a spec function without a body, and contracts speak of the name.

Scores and weights are floating point numbers. The library carries them as bits
and never computes with them.
