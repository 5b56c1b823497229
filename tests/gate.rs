use task_server::server::MAX_CPU_BOUND_TASKS;
use task_server::{Admission, AdmissionGate, Server, Startup, StartupSignal};

#[test]
fn gate_admits_up_to_capacity() {
    let mut g = AdmissionGate::new(MAX_CPU_BOUND_TASKS);
    for _ in 0..40 {
        assert_eq!(g.try_acquire(), Admission::Admitted);
    }
    assert_eq!(g.inflight(), 40);
    assert_eq!(g.try_acquire(), Admission::Parked);
    assert_eq!(g.inflight(), 40);
    assert_eq!(g.waiting(), 1);
}

#[test]
fn release_wakes_every_waiter() {
    let mut g = AdmissionGate::new(2);
    assert_eq!(g.try_acquire(), Admission::Admitted);
    assert_eq!(g.try_acquire(), Admission::Admitted);
    assert_eq!(g.try_acquire(), Admission::Parked);
    assert_eq!(g.try_acquire(), Admission::Parked);
    assert_eq!(g.try_acquire(), Admission::Parked);
    assert_eq!(g.release(), 3);
    assert_eq!(g.waiting(), 0);
    assert_eq!(g.inflight(), 1);
    assert_eq!(g.try_acquire(), Admission::Admitted);
    assert_eq!(g.try_acquire(), Admission::Parked);
}

#[test]
fn stress_never_exceeds_capacity() {
    let mut g = AdmissionGate::new(MAX_CPU_BOUND_TASKS);
    let mut held = 0usize;
    for i in 0..1000usize {
        if i % 7 == 3 && held > 0 {
            g.release();
            held -= 1;
        } else if g.try_acquire() == Admission::Admitted {
            held += 1;
        }
        assert!(g.inflight() <= 40);
        assert_eq!(g.inflight(), held);
    }
}

#[test]
fn all_requests_eventually_run() {
    // 100 CPU-intensive requests; every admitted one finishes after a while.
    let mut g = AdmissionGate::new(MAX_CPU_BOUND_TASKS);
    let mut pending = 100usize;
    let mut running = 0usize;
    let mut done = 0usize;
    let mut rounds = 0;
    while done < 100 {
        // every pending request (woken by the last release) retries
        let mut still = 0;
        for _ in 0..pending {
            match g.try_acquire() {
                Admission::Admitted => running += 1,
                Admission::Parked => still += 1,
            }
        }
        pending = still;
        assert!(g.inflight() <= 40);
        if running > 0 {
            g.release();
            running -= 1;
            done += 1;
        }
        assert_eq!(g.waiting(), 0);
        rounds += 1;
        assert!(rounds < 1000);
    }
    assert_eq!(pending, 0);
}

#[test]
fn forty_first_request_waits_for_a_release() {
    let mut g = AdmissionGate::new(MAX_CPU_BOUND_TASKS);
    for _ in 0..40 {
        g.try_acquire();
    }
    assert_eq!(g.try_acquire(), Admission::Parked);
    assert_eq!(g.release(), 1);
    assert_eq!(g.try_acquire(), Admission::Admitted);
}

#[test]
fn worker_count_policy() {
    let s = Server::new();
    assert_eq!(s.gate_capacity, 40);
    assert_eq!(s.max_workers, 20);
    assert_eq!(s.worker_count(1), 2);
    assert_eq!(s.worker_count(4), 8);
    assert_eq!(s.worker_count(10), 20);
    assert_eq!(s.worker_count(11), 20);
    assert_eq!(s.worker_count(64), 20);
    assert_eq!(s.worker_count(usize::MAX), 20);
    assert_eq!(Server::with_limits(40, 7).worker_count(3), 6);
    assert_eq!(Server::with_limits(40, 7).worker_count(4), 7);
}

#[test]
fn pool_size_follows_cpu_count() {
    let s = Server::new();
    let n = s.pool_size();
    assert!(n >= 2 && n <= 20);
    assert_eq!(n % 2 == 1, false);
    assert_eq!(n, s.worker_count(n / 2));
}

#[test]
fn gate_from_configuration() {
    let g = Server::with_limits(3, 20).admission_gate();
    assert_eq!(g.capacity(), 3);
    assert_eq!(g.inflight(), 0);
    assert_eq!(g.waiting(), 0);
}

#[test]
fn startup_signal() {
    assert_eq!(
        Server::startup(true),
        Startup { signal: StartupSignal::Listening, accepting: true }
    );
    assert_eq!(
        Server::startup(false),
        Startup { signal: StartupSignal::BindFailed, accepting: false }
    );
}
