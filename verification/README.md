# ghfetch

A GitHub statistics service for Cloudflare Workers: one request returns the aggregated
repository, star, language and contribution figures of a GitHub user, behind per-client
and global rate limits and a response cache.

The logic is a Verus library; the Worker around it only talks to the network and the
key-value store.

- `src/types.rs` – the GraphQL reply, the statistics, the rate-limit settings, and
  validated logins (`Username`).
- `src/processor.rs` – counting distinct repositories, summing stars, ranking languages by
  bytes, finding the most starred repository, turning bytes into percentages, and giving each
  language its colour.
- `src/rate_limit.rs` – counter keys, the list of distinct logins of the minute, the global
  and per-client decisions, the writes they
  call for, and laws on successive requests within a window.
- `src/github.rs` – the GraphQL request body and headers.
- `src/response.rs` – the headers of every answer.
- `src/service.rs` – routing, the order of the steps of a stats request (a step function
  from stage and finding to next stage and action), the shared-cache write, the answer of
  each refusal, and laws on which steps a request takes (a cached answer checks no limit and
  does not ask GitHub).
- `src/text.rs` – decimal counters, reading them back, substring search.
- `app/` – the Worker: routing glue, caches, the key-value store, the GitHub request, JSON
  bodies, and the floating-point dashboard summary.
