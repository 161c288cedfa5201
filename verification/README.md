# prompt-codec

A proxy and a command line that make prompts shorter before they reach a paid model:
deterministic rules first, then, if wanted, a rewrite by a local model.

- `src/` is the library, verified with Verus. It holds everything that is decided or
  computed: the rules, the per-message policy, the rewrite cache's keys, the totals, what
  the local model is asked and what its answers count as, the proxy's refusals. What it
  takes on trust from other crates stands in `src/outside.rs`.
- `app/` is the program: command line, YAML, HTTP, SQLite, and the few sums that are done
  in floating point.
- `tests/` runs the library.

What the library promises is stated as contracts, and, where a promise spans several
functions, as proof functions whose names start with `law_`. Some of them:

- Cutting a text into prose and fenced blocks loses nothing, and compression keeps every
  fenced block byte for byte, unless an earlier block has the same body.
- Nothing of a request's body but its messages, or its prompt, is changed on the way.
- Compressing a second time changes nothing.
- Every run over a list of messages ends; no message comes or goes; no role changes; what
  an assistant said is never touched, and what a tool said never goes to the model.
- A rewrite that was accepted once comes back byte for byte when the text comes back.
- No text that says something is ever emptied.
