# awkernel — verified core

The decision-making parts of the Awkernel runtime, written in Verus and
proved against their contracts.

- `src/` is the verified library:
  - `task`, `scheduler`, `run_queue`, `gedf`, `prioritized_rr`: the task
    table, wake-ups, the run queues of the GEDF, prioritized FIFO,
    round-robin and panicked schedulers, and preemption decisions.
  - `periodic_task`, `sleep_task`, `sleeping`, `duration`: periodic job
    planning, sleeps and the list of sleeping tasks.
  - `baseline_trace`, `trace_hooks`, `sorting`, `text`: per-CPU trace
    buffers, the snapshots recorded into them, and their text dumps.
  - `pcie`, `pcie_registers`: configuration-space decoding, the bus scan,
    driver selection and register-page planning.
  - `igc`, `igc_defines`, `igc_device`: the I225 controller's register
    computations, its initialisation sequences over a device interface,
    and that interface implemented over plain register access.
  - `net`, `udp`: interface registry, port bookkeeping, interrupt and poll
    wakers, and UDP socket state.
  - `shell`, `workload`, `perf`: the console line editor and command
    reports, the randomized trace workload planner, and per-CPU time
    accounting.
  - `userland`: installing the root task of a traced workload.
  - `numa`: assigning usable physical memory to NUMA domains.
- `tests/` runs the library on concrete values.
- `app/` connects the library to I/O: the console loop, page mapping,
  the semaphore wait of the I225 driver, its memory-mapped registers, the
  loop that runs periodic jobs, blocking UDP calls, trace dumps, and the
  floating-point averages of the `(perf)` report.
