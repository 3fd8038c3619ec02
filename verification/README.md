# GFE: General Front End

An L7 TLS-terminating HTTP reverse proxy. The decisions it makes are a Verus
library whose behaviour is stated in contracts and proved; the network, the
file system and the wire formats are ordinary Rust around it.

## Layout

- `src/`: the verified library.
  - `types`: configuration, listeners, routes, pools, durations, errors.
  - `router`: host and path matching and the compiled route table.
  - `upstream`: backend health, load-balancing policies, pools, the upstream
    client's TLS settings.
  - `health`: probe verdicts, the per-backend state machine, and which probe
    loops to run for a configuration.
  - `tls`: certificate loading and selection, protocol policy, ACME http-01
    challenges.
  - `proxy`: what to do with a request, header hygiene, forwarding and
    retries, connection limits, draining.
  - `config`, `controller`: validation, atomic application, reload and
    debounce, fallback to the last-known-good configuration.
  - `ops`, `metrics`, `trace`, `loadtest`: the operations endpoints, the metric
    catalogue, the routing tracer, load-test targets and summaries.
  - `text`, `number`, `sort`, `problem`: strings, decimal and hexadecimal
    notation, sorting, first-problem reporting.
- `tests/`: tests of the library.
- `app/`: the `gfe` program: `gfe node`, `gfe trace` and `gfe loadtest`.

## What is proved, and what is trusted

Functions named `law_*` are public proofs of what holds of the library as a
whole: a request is routed by exactly one route if any applies, the most
specific host and then the longest prefix wins; a selected backend is always a
healthy one; a hash ring moves only the keys of a backend that leaves; nothing
is retried once a response has arrived; a refused configuration changes
nothing; and so on.

Calls into other crates stand behind small functions marked
`#[verifier::external_body]`, each with a comment that names the outside
function and says what its contract claims of it. Where such a result takes
long to describe (parsed certificates, TLS settings, a parsed URI) it has a
name, and the contracts speak of that name.
