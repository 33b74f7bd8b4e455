# kworker

A queue of K prover jobs: a worker takes the first listed job that nobody
has started, runs `kprove` on it, uploads its logs to S3 and records the verdict;
a monitor renders the job table; a small server submits programs.

- `src/` is the verified library (Verus): job records and the worker's
  decisions (`job`), S3 addresses (`s3`), the prover's command line and the
  reading of its verdict (`k`), the monitor's rows (`view`), the stable sort
  of jobs (`order`), the effect of the programs' statements on the job table
  (`queue`), the test report's selection and grouping (`report`), the
  server's sandboxes and responses (`dev`), fresh identifiers (`ids`) and
  decimal text, parsing and string predicates (`text`).
- `app/` holds the programs: database access (PostgreSQL), S3 transfers,
  running the prover process, template rendering and the HTTP server.
- `tests/` exercises the library on concrete values.
