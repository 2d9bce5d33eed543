# Stateform

The request-handling logic of an API gateway, written in Rust and verified with Verus, and a
gateway built around it.

- `src/` is the verified library. Functions state in their contracts what they return and
  change; what holds of the gateway as a whole is stated by the public proof functions named
  `law_...`. A function that reads a clock says what it makes of the reading.
  - `config`: the shape of a configuration, what makes one valid, and the watcher that keeps
    the last valid one
  - `router`: routes by exact path, longest prefix or regular expression
  - `auth`: bearer tokens, API keys and client certificates, and the pipeline that asks them
  - `ratelimit`: token buckets in this process, and what the shared limit says
  - `cache`: `Cache-Control` and `Vary`, names of responses, and the two tiers
  - `gateway`: endpoints and their health, load balancing, retries, concurrency limits,
    shutdown, and the way of a request through all stages
  - `metrics`: which metrics there are, and what is recorded when
  - `text`, `order`, `names`, `clock`, `json`, `pattern`, `http_types`: what the others rest on
- `tests/` runs the library.
- `app/` is the gateway: sockets, TLS, Redis, Prometheus and the configuration file.

Where the library calls another crate, the call stands in a small function whose contract says,
in its doc comment and its `ensures`, what is believed of that crate.
