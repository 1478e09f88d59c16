use singleton_sort::gate::{Gate, GatePhase, GateStep};

#[test]
fn gate_hands_out_construction_once() {
    for callers in [2usize, 10, 100] {
        let mut gate = Gate::new();
        let mut constructs = 0usize;
        for _ in 0..callers {
            match gate.arrive() {
                GateStep::Construct => constructs += 1,
                GateStep::Wait => assert_eq!(gate.phase(), GatePhase::Initializing),
                GateStep::Proceed => panic!("no value was built yet"),
            }
        }
        assert_eq!(constructs, 1);
        gate.complete();
        assert_eq!(gate.phase(), GatePhase::Ready);
        assert_eq!(gate.arrive(), GateStep::Proceed);
    }
}

#[test]
fn gate_retries_after_a_failed_construction() {
    let mut gate = Gate::new();
    assert_eq!(gate.phase(), GatePhase::Uninitialized);
    assert_eq!(gate.arrive(), GateStep::Construct);
    assert_eq!(gate.arrive(), GateStep::Wait);
    gate.abandon();
    assert_eq!(gate.phase(), GatePhase::Uninitialized);
    assert_eq!(gate.arrive(), GateStep::Construct);
    gate.complete();
    assert_eq!(gate.arrive(), GateStep::Proceed);
}

#[test]
fn gate_reports_from_non_constructors_change_nothing() {
    let mut gate = Gate::new();
    gate.complete();
    assert_eq!(gate.phase(), GatePhase::Uninitialized);
    assert_eq!(gate.arrive(), GateStep::Construct);
    gate.complete();
    gate.abandon();
    assert_eq!(gate.phase(), GatePhase::Ready);
}
