use vstd::prelude::*;

verus! {

/// The abstract state of an admission gate.
pub struct GateView {
    /// Slots held by executions that have started and not yet finished.
    pub inflight: nat,
    /// The most slots that may be held at once.
    pub capacity: nat,
    /// Acquirers parked since the last release, waiting to be woken.
    pub waiting: nat,
}

/// One event at an admission gate.
pub enum GateEvent {
    /// An acquirer tries to take a slot.
    Acquire,
    /// A holder gives its slot back.
    Release,
}

impl GateView {
    /// The invariant: never more slots held than there are, and no
    /// acquirer parked while a slot stands free.
    pub open spec fn wf(self) -> bool {
        &&& self.inflight <= self.capacity
        &&& self.waiting > 0 ==> self.inflight == self.capacity
    }

    pub open spec fn can_admit(self) -> bool {
        self.inflight < self.capacity
    }

    /// An acquire attempt: take a free slot, or park.
    pub open spec fn after_acquire(self) -> GateView {
        if self.can_admit() {
            GateView { inflight: self.inflight + 1, ..self }
        } else {
            GateView { waiting: self.waiting + 1, ..self }
        }
    }

    /// A release: give the slot back and wake every parked acquirer.
    pub open spec fn after_release(self) -> GateView {
        GateView { inflight: (self.inflight - 1) as nat, waiting: 0, ..self }
    }

    pub open spec fn apply(self, e: GateEvent) -> GateView {
        match e {
            GateEvent::Acquire => self.after_acquire(),
            GateEvent::Release => self.after_release(),
        }
    }

    /// Every release in `t` gives back a slot that is held at that point.
    pub open spec fn valid_trace(self, t: Seq<GateEvent>) -> bool
        decreases t.len(),
    {
        t.len() == 0 || ((t[0] is Release ==> self.inflight > 0) && self.apply(t[0]).valid_trace(
            t.drop_first(),
        ))
    }

    /// The state after the events of `t`, in order.
    pub open spec fn run(self, t: Seq<GateEvent>) -> GateView
        decreases t.len(),
    {
        if t.len() == 0 {
            self
        } else {
            self.apply(t[0]).run(t.drop_first())
        }
    }
}

/// The outcome of an acquire attempt.
#[derive(Clone, Copy, Debug, PartialEq, Eq, Structural)]
pub enum Admission {
    /// The caller holds a slot and may run its task.
    Admitted,
    /// No slot is free: the caller must wait for the next release and retry.
    Parked,
}

/// Bounds how many CPU-intensive executions run at once. Acquiring takes a slot
/// only while one is free; releasing gives it back and wakes every parked
/// acquirer, so that each can try again.
pub struct AdmissionGate {
    inflight: usize,
    capacity: usize,
    waiting: usize,
}

impl View for AdmissionGate {
    type V = GateView;

    closed spec fn view(&self) -> GateView {
        GateView {
            inflight: self.inflight as nat,
            capacity: self.capacity as nat,
            waiting: self.waiting as nat,
        }
    }
}

impl AdmissionGate {
    pub fn new(capacity: usize) -> (r: AdmissionGate)
        ensures
            r@ == (GateView { inflight: 0, capacity: capacity as nat, waiting: 0 }),
            r@.wf(),
    {
        AdmissionGate { inflight: 0, capacity, waiting: 0 }
    }

    pub fn inflight(&self) -> (r: usize)
        ensures
            r == self@.inflight,
    {
        self.inflight
    }

    pub fn capacity(&self) -> (r: usize)
        ensures
            r == self@.capacity,
    {
        self.capacity
    }

    pub fn waiting(&self) -> (r: usize)
        ensures
            r == self@.waiting,
    {
        self.waiting
    }

    /// Takes a slot if one is free (compare-and-increment); otherwise records
    /// the caller as parked.
    pub fn try_acquire(&mut self) -> (r: Admission)
        requires
            old(self)@.wf(),
            old(self)@.waiting < usize::MAX,
        ensures
            final(self)@ == old(self)@.after_acquire(),
            final(self)@ == old(self)@.apply(GateEvent::Acquire),
            final(self)@.wf(),
            (r == Admission::Admitted) == old(self)@.can_admit(),
    {
        if self.inflight < self.capacity {
            self.inflight = self.inflight + 1;
            Admission::Admitted
        } else {
            self.waiting = self.waiting + 1;
            Admission::Parked
        }
    }

    /// Gives a held slot back and wakes every parked acquirer; returns how
    /// many were woken.
    pub fn release(&mut self) -> (woken: usize)
        requires
            old(self)@.wf(),
            old(self)@.inflight > 0,
        ensures
            final(self)@ == old(self)@.after_release(),
            final(self)@ == old(self)@.apply(GateEvent::Release),
            final(self)@.wf(),
            woken == old(self)@.waiting,
    {
        let woken = self.waiting;
        self.inflight = self.inflight - 1;
        self.waiting = 0;
        woken
    }
}

/// Under any sequence of acquire attempts and releases of held slots, the
/// number of slots held never exceeds the capacity, and no acquirer stays
/// parked while a slot is free. `try_acquire` and `release` move a gate by
/// exactly these events, so this holds of every sequence of calls on it.
pub proof fn lemma_capacity_invariant(g: GateView, t: Seq<GateEvent>)
    requires
        g.wf(),
        g.valid_trace(t),
    ensures
        g.run(t).wf(),
        g.run(t).inflight <= g.run(t).capacity,
        g.run(t).capacity == g.capacity,
    decreases t.len(),
{
    if t.len() > 0 {
        lemma_capacity_invariant(g.apply(t[0]), t.drop_first());
    }
}

/// A release leaves no acquirer parked and a slot free, so the next acquire
/// attempt after it is admitted: a release can never be lost on a waiter.
pub proof fn lemma_release_wakes_all(g: GateView)
    requires
        g.wf(),
        g.inflight > 0,
    ensures
        g.after_release().wf(),
        g.after_release().waiting == 0,
        g.after_release().can_admit(),
        g.after_release().after_acquire().inflight == g.inflight,
{
}

/// `k` acquire attempts in a row.
pub open spec fn acquires(k: nat) -> Seq<GateEvent> {
    Seq::new(k, |i: int| GateEvent::Acquire)
}

/// One round of the broadcast protocol: a holder releases its slot, and every
/// acquirer parked until then, woken by that release, tries again.
pub open spec fn round(g: GateView) -> GateView {
    g.after_release().run(acquires(g.waiting))
}

/// The state after `r` rounds.
pub open spec fn rounds(g: GateView, r: nat) -> GateView
    decreases r,
{
    if r == 0 {
        g
    } else {
        rounds(round(g), (r - 1) as nat)
    }
}

/// Of `k` acquire attempts in a row, as many as there are free slots are
/// admitted and the rest are parked.
pub proof fn lemma_acquire_burst(g: GateView, k: nat)
    requires
        g.wf(),
    ensures
        ({
            let free = (g.capacity - g.inflight) as nat;
            let admitted = if k <= free { k } else { free };
            let r = g.run(acquires(k));
            &&& r.wf()
            &&& r.capacity == g.capacity
            &&& r.inflight == g.inflight + admitted
            &&& r.waiting == g.waiting + (k - admitted)
        }),
    decreases k,
{
    if k > 0 {
        assert(acquires(k).drop_first() =~= acquires((k - 1) as nat));
        lemma_acquire_burst(g.after_acquire(), (k - 1) as nat);
    } else {
        assert(acquires(k) =~= Seq::<GateEvent>::empty());
    }
}

proof fn lemma_rounds(g: GateView, r: nat)
    requires
        g.wf(),
        g.capacity > 0,
        r <= g.waiting,
    ensures
        rounds(g, r).wf(),
        rounds(g, r).capacity == g.capacity,
        rounds(g, r).waiting == g.waiting - r,
        rounds(g, r).waiting > 0 ==> rounds(g, r).inflight == g.capacity,
    decreases r,
{
    if r > 0 {
        let h = g.after_release();
        assert(h.wf());
        lemma_acquire_burst(h, g.waiting);
        assert(round(g).waiting == g.waiting - 1);
        lemma_rounds(round(g), (r - 1) as nat);
    }
}

/// No parked acquirer starves while holders keep finishing: each round admits
/// one acquirer that was parked and leaves the others parked with every slot
/// held, so after as many rounds as there were parked acquirers none is left
/// parked; and no round over-commits a slot.
pub proof fn lemma_no_starvation(g: GateView)
    requires
        g.wf(),
        g.capacity > 0,
    ensures
        forall|r: nat|
            r <= g.waiting ==> {
                &&& (#[trigger] rounds(g, r)).wf()
                &&& rounds(g, r).capacity == g.capacity
                &&& rounds(g, r).waiting == g.waiting - r
                &&& rounds(g, r).waiting > 0 ==> rounds(g, r).inflight == g.capacity
            },
        rounds(g, g.waiting).waiting == 0,
{
    assert forall|r: nat| r <= g.waiting implies {
        &&& (#[trigger] rounds(g, r)).wf()
        &&& rounds(g, r).capacity == g.capacity
        &&& rounds(g, r).waiting == g.waiting - r
        &&& rounds(g, r).waiting > 0 ==> rounds(g, r).inflight == g.capacity
    } by {
        lemma_rounds(g, r);
    }
    lemma_rounds(g, g.waiting);
}

} // verus!
