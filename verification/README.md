# im

The IP configuration service of an instant-messaging system: endpoints
register their load in an etcd store, and the service hands out the
endpoints ranked by how lightly loaded they are.

- `src/` is the verified core:
  - `window` — the window of load samples each endpoint keeps, which
    decides the sample that leaves the running total on every record;
  - `dispatcher` — the candidate endpoints, keyed by address and port,
    as add and delete notifications change them;
  - `discovery` — what a change of the discovery store asks of the
    dispatcher, and the key of an endpoint;
  - `config`, `model`, `cli` — the configuration, the registration record
    and the command line.
- `app/` is the program around it: the etcd client, the HTTP server, the
  YAML and JSON parsing, the command-line parser, and the floating-point
  load arithmetic and ranking.
