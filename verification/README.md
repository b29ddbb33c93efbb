# reverse_proxy

An HTTP reverse proxy whose decisions are verified with Verus.

- `src/` is the library: the LRU response cache, the leaky-bucket rate limiter,
  the handling of header fields, the routing by host, the course of an exchange,
  the recording of response bodies and the course of a graceful shutdown. Verus
  proves that the functions do what their contracts say; only of the machine's
  clock the contracts say no more than how far it can run and that the readings
  on record never go back. Time and addresses come in as plain
  numbers: nanoseconds since a clock was started, and the number that the bytes
  of an address spell. Rates are set in billionths of a request, so that the
  leaky bucket is exact.
- `app/` is the program around it: it listens on `127.0.0.1:8080`, runs the tasks
  of the cache and of the rate limiter, and moves bytes between clients and
  backends.
- `tests/` runs the library on concrete values.

What is taken on trust is marked `external_body`, `external_type_specification`
or `assume_specification`, and stands in `src/time.rs` (the machine's clock) and
`src/headers.rs` (hyper's header map).

| Setting | Value |
|---|---|
| Burst of a client | 30 requests |
| Sustained rate of a client | 5 requests per second |
| Bucket is dropped after | 300 s without a request |
| Responses in the cache | 1000 |
| Time a response is kept | 60 s |
| Largest response that is cached | 10 MiB |
| Time for connections to end on shutdown | 30 s |
| Time for tasks to end on shutdown | 5 s |
