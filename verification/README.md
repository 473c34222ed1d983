# mpi_labs

Message-passing exercises (ring, gather, broadcast and all-to-all exchanges,
a token ring on a process grid, a distributed matrix-vector product and
numerical integration) split into two parts:

- `src/` is the verified library: how work is divided between processes,
  which messages each process sends and receives, the routing of the token
  on the grid, and the integer arithmetic on each share, with the laws that
  tie these together.
- `app/` is the MPI program around it: it initialises MPI, performs the
  sends and receives that the library plans, does the floating-point work
  and writes the logs.
