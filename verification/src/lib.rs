//! Verified core of the Awkernel runtime: scheduling decisions, trace
//! buffers, periodic job planning, PCIe/igc register computations and
//! network bookkeeping.

pub mod duration;
pub mod periodic_task;
pub mod task;
pub mod scheduler;
pub mod run_queue;
pub mod gedf;
pub mod prioritized_rr;
pub mod perf;
pub mod baseline_trace;
pub mod sorting;
pub mod text;
pub mod pcie_registers;
pub mod pcie;
pub mod net;
pub mod udp;
pub mod sleep_task;
pub mod sleeping;
pub mod igc_defines;
pub mod igc;
pub mod shell;
pub mod workload;
pub mod trace_hooks;
pub mod userland;
pub mod igc_device;
pub mod numa;
