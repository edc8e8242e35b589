use task_simple::{
    apply_input, fold_progress, BackgroundCore, BackgroundFunction, Input, StateProgress,
    StateTrait,
};
use vstd::seq::Seq;

/// The live state of the dummy background function: the accumulated value.
/// All its progress happens synchronously inside the trigger handler, so a
/// progress check never has anything pending.
struct DummyState(f32);

impl StateTrait for DummyState {
    type Event = f64;
    fn progress(&mut self) -> StateProgress<f64> {
        StateProgress::NothingOngoing
    }
}

/// A background function mirroring a maximum-merge event stream: each
/// trigger emits the events `0.0, 1.0, ...` up to the trigger's magnitude,
/// and pending events merge by keeping the larger one.
#[derive(Default)]
struct DummyFunction;

impl BackgroundFunction for DummyFunction {
    type InitialState = ();
    type State = DummyState;
    type Trigger = f32;
    type Event = f64;

    // The three `*_spec` members are specification-only: verified callers
    // reason through them, but compiled code never calls them, so an
    // unverified implementation may leave them diverging.
    fn init_spec(self, _initial_state: ()) -> (DummyState, Seq<f64>) {
        panic!()
    }

    fn trigger_spec(_state: DummyState, _trigger: f32) -> (DummyState, Seq<f64>) {
        panic!()
    }

    fn merge_spec(_event: f64, _other: f64) -> f64 {
        panic!()
    }

    fn initial_state(self, (): (), events: &mut Vec<f64>) -> DummyState {
        events.push(1.0);
        DummyState(42.0)
    }

    fn trigger(state: &mut DummyState, trigger: f32, events: &mut Vec<f64>) {
        for x in 0..trigger.abs().ceil() as usize {
            events.push(x as f64);
        }
        state.0 += trigger;
    }

    fn event_merge(event: &mut f64, other: f64) {
        *event = event.max(other);
    }
}

/// One round of the backend's loop after some messages arrived: applies the
/// inputs, runs progress checks until nothing is pending, and forwards every
/// emitted event plus the settled notification to the caller-side core.
fn run_backend(
    state: &mut Option<DummyState>,
    inputs: Vec<Input<(), f32>>,
    core: &mut BackgroundCore<DummyFunction>,
) {
    let mut emitted: Vec<f64> = Vec::new();
    for input in inputs {
        apply_input(DummyFunction, state, input, &mut emitted);
    }
    loop {
        let progress = state.as_mut().unwrap().progress();
        let ongoing = fold_progress(progress, &mut emitted);
        if !ongoing {
            break;
        }
        core.push_note(true);
    }
    for event in emitted {
        core.push_event(event);
    }
    core.push_note(false);
}

#[test]
fn background_task_settles_and_merges() {
    let mut core: BackgroundCore<DummyFunction> = BackgroundCore::new();
    let mut state: Option<DummyState> = None;

    // Right after construction the task counts as busy until the backend
    // reports the initial state built.
    assert!(core.is_ongoing());
    run_backend(&mut state, vec![Input::Initial(())], &mut core);
    assert!(!core.is_ongoing());
    assert_eq!(core.event(), Some(1.0));

    // One trigger: busy at least once before it settles, then the merged
    // events of that batch (maximum of 0.0, 1.0, 2.0).
    core.note_trigger();
    assert!(core.is_ongoing());
    run_backend(&mut state, vec![Input::Trigger(2.4)], &mut core);
    assert!(!core.is_ongoing());
    assert_eq!(core.event(), Some(2.0));

    // Two triggers back to back before any poll: exactly one merged event
    // for the whole batch, and no longer ongoing only after both settled.
    core.note_trigger();
    core.note_trigger();
    assert!(core.is_ongoing());
    run_backend(
        &mut state,
        vec![Input::Trigger(3.4), Input::Trigger(2.4)],
        &mut core,
    );
    assert!(!core.is_ongoing());
    assert_eq!(core.event(), Some(3.0));
    assert_eq!(core.event(), None);
}

#[test]
fn events_merge_pairwise_in_arrival_order() {
    let mut core: BackgroundCore<DummyFunction> = BackgroundCore::new();
    core.push_event(1.0);
    core.push_event(5.0);
    core.push_event(3.0);
    assert_eq!(core.event(), Some(5.0));
    // The drain leaves nothing stranded.
    assert_eq!(core.event(), None);
}

#[test]
fn ongoing_follows_latest_notification() {
    let mut core: BackgroundCore<DummyFunction> = BackgroundCore::new();
    assert!(core.is_ongoing());
    core.push_note(false);
    core.push_note(true);
    core.push_note(false);
    assert!(!core.is_ongoing());
    // Nothing pending: the folded state is reported unchanged.
    assert!(!core.is_ongoing());
}
