# iris-core

Resource accounting for a run-to-completion packet-processing runtime, verified with Verus.

- `src/filter/flow_drop`: replaying a measured NIC latency trace, and the split queues that a
  per-flow rule is steered to.
- `src/lcore`: the RX poll loop and its cycle budget, the PCIe, DRAM and transport meters, and the
  PCI topology that the meters rest on.
- `src/memory`: what the mbuf pools cost and how full they get.
- `src/multicore`, `src/stats`: worker pools, worker threads, subscriptions and shared counters.
- `src/runtime.rs`: which pools a runtime needs and what a run consists of.
- `src/text.rs`, `src/sorted.rs`, `src/ratio.rs`, `src/thread_cost.rs`: text, lists, exact fractions
  and thread costs that the rest is built from.

Shares and rates are exact fractions. Everything that touches the machine (clocks, files, child
processes, queues, process-wide state) and every floating-point figure is in `app/`, which calls the
library with plain values.
