# hn-scored

Generates RSS, Atom and JSON feeds of Hacker News stories by score
threshold (0 to 1000 points), for articles and for comment pages, from a
durable `state.json` that records when each story first crossed each
threshold.

## Layout

- `src/` is the verified library (Verus):
  - `time.rs`: whole-second UTC instants, RFC 3339 and RFC 2822 text (chrono).
  - `types.rs`, `config.rs`, `error.rs`: the state, stories, API items,
    constants, the `--base-url` check and the errors.
  - `state/`: threshold crossings, applying a fetched item, cleanup of
    expired crossings, and reading and writing `state.json`
    (`store.rs`, with the round-trip law in `round_trip.rs`).
  - `feed/`: feed selection and rendering (RSS, Atom, JSON Feed), with
    the laws on feed order and determinacy in `order.rs`.
  - `html/`: the landing page.
  - `json.rs`: JSON values and their pretty-printed text.
  - `cycle.rs`: one update cycle as a sequence of decisions (what to fetch,
    how results change the state, which files to render, whether to write).
  - `output.rs`: the rendered files and the comparison with the files on disk.
  - `api/`: fetch results and the retry policy (when to wait, how long,
    and when to give up).
- `app/` is the program around it: command line, HTTP requests to the HN
  API, reading and writing files, and the loop that performs what each
  step of a cycle asks for.
- `tests/` runs the library on concrete values.

Exit codes: 0 when outputs changed and were written, 2 when nothing
changed, 1 on failure (including an outage of all three discovery lists).
