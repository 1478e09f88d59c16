use vstd::prelude::*;

verus! {

/// Where a one-time initialization stands.
#[derive(Debug, Clone, Copy, PartialEq, Eq, Structural)]
pub enum GatePhase {
    Uninitialized,
    Initializing,
    Ready,
}

/// What a caller that asks for the value must do.
#[derive(Debug, Clone, Copy, PartialEq, Eq, Structural)]
pub enum GateStep {
    /// Run the constructor, then report `complete` or `abandon`.
    Construct,
    /// Another caller is constructing: wait, then arrive again.
    Wait,
    /// The value is built and may be read.
    Proceed,
}

/// An event of a one-time initialization: a caller arrives, or the constructing caller
/// reports success or failure.
#[derive(Debug, Clone, Copy, PartialEq, Eq, Structural)]
pub enum GateEvent {
    Arrive,
    Complete,
    Abandon,
}

/// The phase and step after a caller arrives in phase `p`.
pub open spec fn arrive_spec(p: GatePhase) -> (GatePhase, GateStep) {
    match p {
        GatePhase::Uninitialized => (GatePhase::Initializing, GateStep::Construct),
        GatePhase::Initializing => (GatePhase::Initializing, GateStep::Wait),
        GatePhase::Ready => (GatePhase::Ready, GateStep::Proceed),
    }
}

/// The phase after event `e` in phase `p`. A report from a caller that is not
/// constructing changes nothing.
pub open spec fn next_phase(p: GatePhase, e: GateEvent) -> GatePhase {
    match e {
        GateEvent::Arrive => arrive_spec(p).0,
        GateEvent::Complete => if p == GatePhase::Initializing {
            GatePhase::Ready
        } else {
            p
        },
        GateEvent::Abandon => if p == GatePhase::Initializing {
            GatePhase::Uninitialized
        } else {
            p
        },
    }
}

/// The phase after the events `es`, from `p`.
pub open spec fn run_phase(p: GatePhase, es: Seq<GateEvent>) -> GatePhase
    decreases es.len(),
{
    if es.len() == 0 {
        p
    } else {
        next_phase(run_phase(p, es.drop_last()), es.last())
    }
}

/// How many callers among the events `es`, from `p`, were told to construct.
pub open spec fn constructions(p: GatePhase, es: Seq<GateEvent>) -> nat
    decreases es.len(),
{
    if es.len() == 0 {
        0
    } else {
        let before = run_phase(p, es.drop_last());
        constructions(p, es.drop_last()) + if es.last() == GateEvent::Arrive && before
            == GatePhase::Uninitialized {
            1nat
        } else {
            0nat
        }
    }
}

/// How many times the constructing caller gave up among the events `es`, from `p`.
pub open spec fn abandons(p: GatePhase, es: Seq<GateEvent>) -> nat
    decreases es.len(),
{
    if es.len() == 0 {
        0
    } else {
        abandons(p, es.drop_last()) + if es.last() == GateEvent::Abandon && run_phase(
            p,
            es.drop_last(),
        ) == GatePhase::Initializing {
            1nat
        } else {
            0nat
        }
    }
}

/// Exactly-once construction: from the uninitialized phase, whatever callers
/// arrive and in whatever order, the constructor is handed out once more than
/// it was given up, never more; while a construction runs or after it
/// completed, nobody else is told to construct; and once a caller arrived
/// without any construction being given up, the constructor was handed out
/// exactly once.
pub proof fn lemma_exactly_once(es: Seq<GateEvent>)
    ensures
        run_phase(GatePhase::Uninitialized, es) == GatePhase::Uninitialized ==> constructions(
            GatePhase::Uninitialized,
            es,
        ) == abandons(GatePhase::Uninitialized, es),
        run_phase(GatePhase::Uninitialized, es) != GatePhase::Uninitialized ==> constructions(
            GatePhase::Uninitialized,
            es,
        ) == abandons(GatePhase::Uninitialized, es) + 1,
        es.contains(GateEvent::Arrive) && abandons(GatePhase::Uninitialized, es) == 0
            ==> constructions(GatePhase::Uninitialized, es) == 1,
    decreases es.len(),
{
    if es.len() > 0 {
        let init = es.drop_last();
        lemma_exactly_once(init);
        if !init.contains(GateEvent::Arrive) {
            lemma_no_arrival_keeps_phase(init);
        }
        if es.contains(GateEvent::Arrive) && !init.contains(GateEvent::Arrive) {
            let k = choose|k: int| 0 <= k < es.len() && es[k] == GateEvent::Arrive;
            if k < init.len() {
                assert(init[k] == GateEvent::Arrive);
            }
        }
        if init.contains(GateEvent::Arrive) {
            let k = choose|k: int| 0 <= k < init.len() && init[k] == GateEvent::Arrive;
            assert(es[k] == GateEvent::Arrive);
        }
    }
}

/// Nobody is let through before a construction completed: from the
/// uninitialized phase, the value is ready only after a `Complete` that ended
/// a running construction, so every caller told to proceed reads a value that
/// was fully built.
pub proof fn lemma_ready_after_complete(es: Seq<GateEvent>)
    ensures
        run_phase(GatePhase::Uninitialized, es) == GatePhase::Ready ==> exists|k: int|
            0 <= k < es.len() && es[k] == GateEvent::Complete && run_phase(
                GatePhase::Uninitialized,
                es.take(k),
            ) == GatePhase::Initializing,
    decreases es.len(),
{
    if es.len() > 0 {
        let init = es.drop_last();
        lemma_ready_after_complete(init);
        if run_phase(GatePhase::Uninitialized, es) == GatePhase::Ready {
            let n = init.len() as int;
            assert(es.take(n) =~= init);
            if run_phase(GatePhase::Uninitialized, init) == GatePhase::Ready {
                let k = choose|k: int|
                    0 <= k < init.len() && init[k] == GateEvent::Complete && run_phase(
                        GatePhase::Uninitialized,
                        init.take(k),
                    ) == GatePhase::Initializing;
                assert(es.take(k) =~= init.take(k));
                assert(es[k] == init[k]);
            } else {
                assert(es[n] == GateEvent::Complete);
            }
        }
    }
}

/// Without an arrival nothing leaves the uninitialized phase.
proof fn lemma_no_arrival_keeps_phase(es: Seq<GateEvent>)
    requires
        !es.contains(GateEvent::Arrive),
    ensures
        run_phase(GatePhase::Uninitialized, es) == GatePhase::Uninitialized,
        constructions(GatePhase::Uninitialized, es) == 0,
        abandons(GatePhase::Uninitialized, es) == 0,
    decreases es.len(),
{
    if es.len() > 0 {
        let init = es.drop_last();
        assert(!init.contains(GateEvent::Arrive)) by {
            if init.contains(GateEvent::Arrive) {
                let k = choose|k: int| 0 <= k < init.len() && init[k] == GateEvent::Arrive;
                assert(es[k] == GateEvent::Arrive);
            }
        }
        lemma_no_arrival_keeps_phase(init);
        assert(es[es.len() - 1] == es.last());
    }
}

/// The state of a one-time initialization. A constructor that fails sends
/// it back to `Uninitialized`, so that the next caller retries.
pub struct Gate {
    phase: GatePhase,
}

impl View for Gate {
    type V = GatePhase;

    closed spec fn view(&self) -> GatePhase {
        self.phase
    }
}

impl Gate {
    /// An initialization whose constructor has not run.
    pub fn new() -> (r: Gate)
        ensures
            r@ == GatePhase::Uninitialized,
    {
        Gate { phase: GatePhase::Uninitialized }
    }

    /// A caller arrives: the first one is told to construct, those that come
    /// while it does are told to wait, and those after it are let through.
    pub fn arrive(&mut self) -> (r: GateStep)
        ensures
            (final(self)@, r) == arrive_spec(old(self)@),
            final(self)@ == next_phase(old(self)@, GateEvent::Arrive),
    {
        match self.phase {
            GatePhase::Uninitialized => {
                self.phase = GatePhase::Initializing;
                GateStep::Construct
            },
            GatePhase::Initializing => GateStep::Wait,
            GatePhase::Ready => GateStep::Proceed,
        }
    }

    /// The constructing caller stored its value: it is ready for good.
    pub fn complete(&mut self)
        ensures
            final(self)@ == next_phase(old(self)@, GateEvent::Complete),
    {
        if self.phase == GatePhase::Initializing {
            self.phase = GatePhase::Ready;
        }
    }

    /// The constructing caller failed: the next caller constructs again.
    pub fn abandon(&mut self)
        ensures
            final(self)@ == next_phase(old(self)@, GateEvent::Abandon),
    {
        if self.phase == GatePhase::Initializing {
            self.phase = GatePhase::Uninitialized;
        }
    }

    pub fn phase(&self) -> (r: GatePhase)
        ensures
            r == self@,
    {
        self.phase
    }
}

} // verus!
