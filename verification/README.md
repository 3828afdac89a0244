# netfault

A TCP proxy that injects network faults (latency, drops, corruption, closes) for
testing how applications behave under adverse network conditions.

- `src/` is the verified library. It holds the decisions on settings, chunks,
  connections and counters, and performs no I/O:
  - `config`: fault settings, their validation, and the merging of file and
    command-line settings;
  - `probability`: probabilities as double-precision bit patterns;
  - `rng`: the pseudo-random generator, and what is trusted of it;
  - `seed`: per-stream seeds from one master seed;
  - `bits`: flipping single bits of byte strings;
  - `fault`: the fault pipeline of one direction of a connection;
  - `stats`: the counters of a run;
  - `proxy`: the accept loop and the forwarding halves as state machines;
  - `laws`: what holds of pipeline and proxy as a whole.
- `tests/` runs the library, whole connections included, in memory.
- `app/` is the program: command line, TOML files, sockets, timers, cancellation
  tokens and logging.
