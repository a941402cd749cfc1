# mobile_agent

The decision logic of a local-first mobile AI agent, verified with Verus:
which LLM providers a prompt is routed to (fallback, round robin, priority),
how failures move on to the next provider, how the provider registry is kept,
how strategy and memory-category names are read, and the text sent to and
received from providers.

- `src/text.rs` – trimming, ASCII case folding, decimal rendering.
- `src/model.rs` – providers, strategies, status snapshots, the agent state.
- `src/category.rs` – memory categories and how their names are read and written.
- `src/registry.rs` – adding, listing, updating and removing providers; strategy selection; status.
- `src/routing.rs` – the order in which providers are tried.
- `src/session.rs` – the routing of one prompt as a sequence of decisions between provider calls.
- `src/prompt.rs` – the request sent to a provider (the prompt alone: memories stay on the device), turn keys, failure messages.
- `src/laws.rs` – properties across calls (each provider tried once, uniqueness of the order,
  rotation of the round-robin leader, removal, name round trips).
- `app/lib.rs` – the async API: global state, SQLite memory (zeroclaw), HTTP (reqwest).
