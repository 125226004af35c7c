# LocalToGlobal

`ltg` detects web services on this machine, puts a small guard in front of the one that is to be
shared, and publishes it through a Cloudflare quick tunnel. The guard enforces the share's expiry
and, in token mode, its token, before a request reaches the local service.

The decisions are a library that [Verus](https://github.com/verus-lang/verus) verifies; the program
around it does the input and output.

## Layout

- `src/` is the verified library.
  - `text/`: strings as sequences of characters: splitting, trimming, searching, numbers, and the
    few calls into the standard library that are taken on trust (`text/std_calls.rs`).
  - `order.rs`: stable sorting.
  - `routes.rs`: which local port answers for which path.
  - `config.rs`: the parts of the configuration that the decisions read.
  - `detect/`: what listens on this machine, what it is taken to be, and how it is ranked.
  - `share/`: what a share exposes, how it is protected, the command line and the life of the worker
    that serves it, and its record on disk.
  - `proxy/`: the guard. `guard.rs` takes a request in and decides on it, `relay.rs` hands the
    response back, `access.rs` keeps the log.
  - `deps.rs`, `install.rs`: the tunnel program, and the installation of a managed copy.
  - `cli/`: the command line, and what is answered on it.
  - `paths.rs`: where the files of a project belong.
- `app/` is the program: sockets, processes, files and the terminal.
- `tests/` runs the library.

## What is proved

Every function of the library has a contract over mathematical models of its values, and no verified
function panics. Statements that span functions stand as public proof functions, most of them in the
`laws.rs` files. Among them:

- over the whole reading of a request: it is forwarded only if its head came before the share had run
  out, the guard admits it and a route answers for it (`proxy/laws.rs`);
- what a client gets of a response does not depend on how it was cut into reads (`proxy/laws.rs`);
- the URL that is handed out is let in by the guard (`share/laws.rs`);
- in every run of a worker all records are of the share that it was told of, and the last one says
  how the share ended (`share/laws.rs`);
- a share's record, a worker's command line, a route specification and the access log read back as
  what was written (`share/laws.rs`, `routes.rs`, `proxy/access.rs`).

Where a file belongs is a base and the names that are joined to it; the program joins them as its
platform does.
