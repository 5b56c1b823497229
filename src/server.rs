use vstd::prelude::*;

use crate::gate::{AdmissionGate, GateView};

verus! {

/// The most CPU-intensive executions that may run at once.
pub const MAX_CPU_BOUND_TASKS: usize = 40;

/// The most workers the pool is given, whatever the number of CPUs.
pub const MAX_WORKERS: usize = 20;

/// The single message that server start sends to its caller.
#[derive(Clone, Copy, Debug, PartialEq, Eq, Structural)]
pub enum StartupSignal {
    /// The address is bound; connections are being accepted.
    Listening,
    /// Binding failed; nothing is accepted.
    BindFailed,
}

/// What server start does once the bind has been tried.
#[derive(Clone, Copy, Debug, PartialEq, Eq, Structural)]
pub struct Startup {
    /// The one message sent to the caller.
    pub signal: StartupSignal,
    /// Whether the accept loop runs.
    pub accepting: bool,
}

/// The server's configuration: the admission capacity for CPU-intensive tasks
/// and the ceiling on the number of workers.
pub struct Server {
    pub gate_capacity: usize,
    pub max_workers: usize,
}

/// The worker-count policy: two workers per CPU, at most `max_workers`.
pub open spec fn spec_worker_count(cpus: nat, max_workers: nat) -> nat {
    if 2 * cpus <= max_workers {
        2 * cpus
    } else {
        max_workers
    }
}

/// Relies on num_cpus::get: the number of logical CPUs available to this
/// process, which is always at least one.
#[verifier::external_body]
fn available_cpus() -> (r: usize)
    ensures
        r >= 1,
{
    num_cpus::get()
}

impl Server {
    /// The canonical configuration.
    pub fn new() -> (r: Server)
        ensures
            r.gate_capacity == MAX_CPU_BOUND_TASKS,
            r.max_workers == MAX_WORKERS,
    {
        Server { gate_capacity: MAX_CPU_BOUND_TASKS, max_workers: MAX_WORKERS }
    }

    pub fn with_limits(gate_capacity: usize, max_workers: usize) -> (r: Server)
        ensures
            r.gate_capacity == gate_capacity,
            r.max_workers == max_workers,
    {
        Server { gate_capacity, max_workers }
    }

    /// The number of workers for a machine with `cpus` CPUs.
    pub fn worker_count(&self, cpus: usize) -> (r: usize)
        ensures
            r as nat == spec_worker_count(cpus as nat, self.max_workers as nat),
    {
        if cpus <= self.max_workers / 2 {
            2 * cpus
        } else {
            self.max_workers
        }
    }

    /// The number of workers for this machine.
    pub fn pool_size(&self) -> (r: usize)
        ensures
            exists|cpus: nat| cpus >= 1 && r as nat == spec_worker_count(cpus, self.max_workers as nat),
            r <= self.max_workers,
            self.max_workers >= 2 ==> r >= 2,
    {
        let cpus = available_cpus();
        let r = self.worker_count(cpus);
        assert(cpus as nat >= 1 && r as nat == spec_worker_count(cpus as nat, self.max_workers as nat));
        r
    }

    /// A fresh admission gate with this server's capacity and no slot held.
    pub fn admission_gate(&self) -> (r: AdmissionGate)
        ensures
            r@ == (GateView { inflight: 0, capacity: self.gate_capacity as nat, waiting: 0 }),
            r@.wf(),
    {
        AdmissionGate::new(self.gate_capacity)
    }

    /// What server start does after trying to bind: exactly one signal, and
    /// accepting only when the bind succeeded.
    pub fn startup(bound: bool) -> (r: Startup)
        ensures
            r.accepting == bound,
            r.signal == (if bound {
                StartupSignal::Listening
            } else {
                StartupSignal::BindFailed
            }),
    {
        if bound {
            Startup { signal: StartupSignal::Listening, accepting: true }
        } else {
            Startup { signal: StartupSignal::BindFailed, accepting: false }
        }
    }
}

} // verus!
