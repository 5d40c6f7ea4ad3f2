# market_time

Answers what trading phase a venue is in at an explicit UTC instant, with the evidence
behind the answer and an honest statement of how precisely it is known. An instant the
data does not cover is an explicit unknown, never a closed market.

The library is written in Verus: every public function carries a `requires`/`ensures`
contract over mathematical models (`Seq`, `Map`, `int`, spec functions), and Verus proves
the code against it.

## Layout

- `src/` — the verified library.
  - `instant`, `civil`, `zone`, `tzdata`: UTC instants, the proleptic Gregorian calendar,
    and the bundled IANA database reached through `jiff`.
  - `phase`, `uncertainty`, `evidence`, `ids`, `catalog`, `coverage`, `event`, `rule`,
    `ruleset`: the vocabulary a dataset is written in and the checks a ruleset passes.
  - `resolve`, `query`: phase resolution at an instant and timelines over an interval.
  - `bands`: session bands and overlap windows derived from member timelines.
  - `load`, `format`, `revision`, `fetch`, `adapters/sse`: turning dataset records and
    fetched documents into a validated ruleset.
  - `board`, `svg`, `html`, `page`: the text board, the markup helpers of the other
    surfaces, and the page assembled around a drawn board.
  - `request`, `origin`, `status`, `scales`: what the shells accept from their callers
    and what the status service reports.
- `tests/` — executable tests of the library.
- `app/` — the command-line shell and the HTTP service: argument handling, file and
  network I/O, JSON encoding, and the floating-point time-scale conversion.
