# semantic_router

A semantic router for OpenAI-style chat completions, verified with Verus.

A request is screened (prompt guard, personal data), embedded, looked up in a
semantic cache, routed to the category whose examples are closest, and forwarded
to that category's backend with the backend's model name. Streams are piped
through and never touch the cache.

## Layout

- `src/` is the library. Every function carries a contract. Verus proves them,
  but for the wrappers around outside calls (see below).
  - `server`: the stages of a request: `receive`, `guard`, `scan_for_pii` and
    `redact_flagged` (together `screen`), `recall` and `forward` (together `proceed`), `complete`
    or `stream_head`
  - `prompt_guard`, `pii`: the two screens; `redaction`: what a redaction keeps of
    the whole text
  - `cache`: the semantic cache
  - `routing`, `classifier`: from an embedding to a decision
  - `proxy`, `embeddings`, `config`: what is sent, which model is meant, what a
    usable configuration needs
  - `score`, `text`, `json`: single-precision scores as bit patterns, and the
    calls into the standard library and `serde_json`
  - `laws`: what holds of the handling of requests as a whole
- `app/` is the server around it: files, HTTP, the embedding model, traces, and
  the floating-point arithmetic, which the library takes as closures.
- `tests/` runs the library on concrete values.

## What is trusted

The contracts of calls into `regex`, `serde_json`, `axum` (header values) and
parts of `std::str`, each stated next to the call. The closures that rate
embeddings and read classifiers are arbitrary: results are stated in terms of
whatever they answer.
