# acoustic-review

Offline review of where sounds came from. Microphone stations report short
features of what they heard (onset times on their own clocks, peak bands,
correlation delays between stations); the library keeps them, corrects the
clocks, lays out the hypotheses about which delays are reflections, ranks the
positions that come out, and records what an analyst decides. Where the geometry
or the clocks do not determine a position, the result is a curve or a region with
a reason, and a position outside the site is reported where it was found.

There are two programs in one crate: the *survey* (the modules at the top level)
and the *workbench* (`src/workbench`), which locates events by pairwise delays
and works with batches, linked observations and jobs that run at once.

Units are explicit throughout: metres, seconds, metres per second, hertz. All
intervals of time are half-open.

## Layout

- `src/` is the verified library. Every function states what it returns or
  changes; laws that relate several functions stand in `solver_laws`,
  `store_laws`, `intake_laws`, `url_laws`, `workbench/laws` and beside the
  functions they are about.
- `app/` is the program around it: command line, sockets, SQLite files, JSON text
  and floating-point arithmetic.
- `tests/` runs the library, with the arithmetic that it needs written out in the
  test files.

| Modules | What they hold |
| --- | --- |
| `double`, `figures` | doubles by their bits, and tables of what arithmetic on them gives |
| `text`, `split`, `textset`, `order`, `arrange`, `rows` | texts, sorting, listings |
| `json`, `canon`, `digest` | documents, their canonical text, fingerprints |
| `model`, `store`, `restore` | the survey's records, its tables and their rules |
| `db`, `ingest`, `jobs`, `clocks`, `seeding` | what can be done with the tables |
| `geom`, `solver`, `solving` | shapes, the search, hypotheses, candidates |
| `requests`, `shown`, `server`, `args` | requests and replies, records as documents, HTTP framing, command lines |
| `workbench/db`, `restore`, `models`, `units` | the workbench's tables and records |
| `workbench/clock`, `ingest`, `evidence`, `service`, `detail` | what can be done with them |
| `workbench/picture`, `snapshot`, `edges`, `linalg`, `fitting`, `solver`, `jobs` | from the tables to ranked candidates |
| `workbench/synth` | synthetic data |

## Numbers

The library does no floating-point arithmetic. A double is its bit pattern; it
can be compared, negated and clamped. Sums, products, square roots and decimal
texts come from outside, in tables that say for which arguments they hold, and
the library decides what follows from them: which trial is best, what becomes of
a step of a search, which samples belong to a curve, how candidates rank. Numbers
that cannot be those of the input are refused.

## What is trusted

Five calls are believed rather than proved, each behind one declaration with its
own comment: `sha2::Sha256::digest`, `hex::encode`, `serde_json::to_string` on a
string, `String::from_utf8_lossy` and `String::push`.
