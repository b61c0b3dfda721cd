# ratelimit

A rate limiting service. The verified library in `src/` holds its logic:

- `algorithm/`: fixed-window and sliding-window limiters over per-key tables,
  with their outcomes stated as spec functions and the laws they keep (a key is
  never granted more than its limit in a window, keys are independent, a peek
  does not consume, a new window starts afresh).
- `key_extractor.rs`: where the key of a request comes from (header, query,
  cookie, JSON body path, address, path), and cookie parsing.
- `config/`: rules, their counters, and the live rule set with its updates and
  reloads.
- `api/`: which rule governs a request (IP lists before path prefixes before
  global rules, by priority), what a check is planned as, and the replies, for
  HTTP and for the gRPC message types.
- `alert.rs`: which rules are due for an alert, at most once per window.
- `store/`: limiter fingerprints and what the Redis-backed store computes
  around its scripts.
- `text.rs`, `assoc.rs`, `time.rs`: text functions, association lists and
  durations used by the above.

`app/` is the program around it: configuration files and their watcher, the
HTTP server, the stores (in-memory and Redis), the token bucket limiter
(floating-point), metrics, and the webhook senders.

`tests/` exercises the library on concrete values.
