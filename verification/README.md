# autonoetic_gateway

The runtime rules of an agent gateway, verified with Verus: what is kept of a
session, what a model is shown, and where content may go.

- `src/` is the library. Every public function states what it returns or changes, and
  of a random or dated value what holds of every outcome; the laws that relate
  several functions are public proof functions beside them.
  What an outside crate or `std` decides (digests, signatures, Base64, JSON text,
  the clock, random ids) enters through a small function each, whose doc comment
  says what is taken on trust.
- `tests/` runs the library on concrete values.
- `app/` is ordinary Rust around it: files, processes, the model driver, and the
  copies of the library's types that carry `serde` derives.

| Modules | What they decide |
| --- | --- |
| `content_store`, `sealed`, `checkpoint`, `continuation` | content by digest, names and visibility; envelopes whose payload is trusted exactly where its tag fits; suspended and branched sessions |
| `compression`, `compression_quality`, `capsule`, `context_governor` | how a history that is too long is reduced, and what must survive |
| `context`, `memory_recall`, `budget_tracker` | the system prompt, the memories recalled in it, budgets and context windows |
| `egress`, `egress_labeler`, `egress_routing`, `egress_boundary`, `egress_asks`, `egress_events` | labels on content, and the models, peers and networks that each label admits |
| `disclosure`, `discretion_leak`, `approved_exec_cache`, `active_execution_registry`, `code_excerpts`, `curator_journal`, `crypto` | redaction, leaks of discretion, approvals that are reused, running tasks, excerpts for approvals, decision journals, keys and signatures |
| `text`, `textmap`, `order`, `json`, `digest`, `clock`, `causal`, `llm`, `config` | what the others share |
