# vampire

A caching proxy for PyPI, npm and Cargo, with a read-only path to GitHub repositories. It serves
package managers in places without open network access: metadata is rewritten so that artifacts
are fetched through the proxy, artifacts and metadata are kept on disk within a bound, and
everything that is not a known read is refused.

## Layout

- `src/` is the library, in Verus, with contracts and proofs: what the proxy decides, from plain
  values to plain values. Where a decision waits for a file or for upstream, it is a step that
  takes what happened and says what is done next.
  - `paths`, `routes`, `weburl`: canonical paths and the upstream URL of every resource
  - `cargo`, `pypi`, `npm`, `git`, `packages`, `state`: what a request asks for, and which
    redirects are followed
  - `rewrite`, `packument`, `bounds`: rewriting of metadata, and the memory that it takes
  - `keys`, `footer`, `directory`, `opening`, `eviction`, `cache`: keys, files, ownership and
    bound of the cache, and the work under way
  - `writing`, `disk`: the steps of writing an entry, and a model of the files
  - `http`, `meta`, `proxy`, `metadata`, `fetch`: headers, bodies, answers, and the steps of a
    fetch
  - `config`, `stats`, `failure_log`, `json`, `error`: configuration, counters and logs
  - `text`, `ordered`: texts and a map in the order of its keys
- `app/` is the program around it: listeners, upstream clients, files and the clock. It performs
  the steps in the order that the library gives, under the locks that make each step one.
- `tests/` runs the library, with the crates that it calls.

## What is trusted

The library calls `url`, `regex`, `serde_json`, `sha2`, `hex` and two functions of the standard
library through small functions whose contracts are believed. Each says above its contract what
it claims. Where the result of a call takes pages to describe, it only has a name there, and the
contracts of the library are exact in terms of that name.
