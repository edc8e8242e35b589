use vstd::prelude::*;

verus! {

/// What one progress check of the background state reports: nothing pending,
/// still working, or an event for the outside world this tick.
#[derive(Debug)]
pub enum StateProgress<T> {
    /// The background task is waiting for external input.
    NothingOngoing,
    /// The background task is computing something.
    Ongoing,
    /// The background task has a message for the external world.
    Event(T),
}

/// Implemented by the background task's live state: the backend's loop polls
/// `progress` continuously to learn whether work remains and to pick up
/// emitted events.
pub trait StateTrait {
    /// Event type for the external world.
    type Event;

    /// Checks the progress of the background task.
    fn progress(&mut self) -> StateProgress<Self::Event>;
}

/// The long-running stateful function a background task executes. Emitted
/// events are appended to the buffer handed to each call; the buffer stands
/// for the channel the embedding forwards them over.
pub trait BackgroundFunction: Sized {
    /// What the live state is built from. This typically crosses an
    /// execution boundary, so the embedding may require it transportable.
    type InitialState;

    /// The live state of the function.
    type State: StateTrait<Event = Self::Event>;

    /// An outer request forwarded to the background task.
    type Trigger;

    /// An event produced by the background task.
    type Event;

    /// What building the live state yields: the state and the events emitted
    /// while building it, in emission order.
    spec fn init_spec(self, initial_state: Self::InitialState) -> (Self::State, Seq<Self::Event>);

    /// What one trigger does to the live state: the successor state and the
    /// events emitted on the way, in emission order.
    spec fn trigger_spec(state: Self::State, trigger: Self::Trigger) -> (
        Self::State,
        Seq<Self::Event>,
    );

    /// How two pending events combine into one. Drains merge pairwise in
    /// arrival order, so this should be associative in effect.
    spec fn merge_spec(event: Self::Event, other: Self::Event) -> Self::Event;

    /// Builds the live state, appending the events emitted on the way.
    fn initial_state(
        self,
        initial_state: Self::InitialState,
        events: &mut Vec<Self::Event>,
    ) -> (state: Self::State)
        ensures
            state == self.init_spec(initial_state).0,
            final(events)@ == old(events)@ + self.init_spec(initial_state).1,
    ;

    /// Advances the live state by one trigger, appending the events emitted
    /// on the way.
    fn trigger(state: &mut Self::State, trigger: Self::Trigger, events: &mut Vec<Self::Event>)
        ensures
            *final(state) == Self::trigger_spec(*old(state), trigger).0,
            final(events)@ == old(events)@ + Self::trigger_spec(*old(state), trigger).1,
    ;

    /// Merges a second pending event into the first.
    fn event_merge(event: &mut Self::Event, other: Self::Event)
        ensures
            *final(event) == Self::merge_spec(*old(event), other),
    ;
}

/// What a caller drain returns when events are pending: all of them, merged
/// pairwise in arrival order.
pub open spec fn merge_fold<F: BackgroundFunction>(events: Seq<F::Event>) -> F::Event
    recommends
        events.len() > 0,
    decreases events.len(),
{
    if events.len() <= 1 {
        events[0]
    } else {
        F::merge_spec(merge_fold::<F>(events.drop_last()), events.last())
    }
}

/// Law (event merge): three events pending between two drains come back as
/// the left fold of the merge — `merge(merge(e1, e2), e3)`.
pub proof fn lemma_merge_fold_three<F: BackgroundFunction>(
    e1: F::Event,
    e2: F::Event,
    e3: F::Event,
)
    ensures
        merge_fold::<F>(seq![e1, e2, e3]) == F::merge_spec(F::merge_spec(e1, e2), e3),
{
    let s1 = seq![e1];
    let s2 = seq![e1, e2];
    let s3 = seq![e1, e2, e3];
    assert(s3.drop_last() =~= s2);
    assert(s2.drop_last() =~= s1);
    assert(merge_fold::<F>(s1) == e1);
    assert(merge_fold::<F>(s2) == F::merge_spec(e1, e2));
}

/// A message into the background backend: either the payload the live state
/// is first built from, or one trigger for the already-running state.
#[derive(Debug)]
pub enum Input<Initial, Trigger> {
    /// Builds the live state.
    Initial(Initial),
    /// Advances the already-built live state.
    Trigger(Trigger),
}

/// Folds one progress report into the backend loop's bookkeeping: an emitted
/// event is appended to the outgoing buffer and counts as still busy; only a
/// report of nothing pending counts as settled.
pub fn fold_progress<E>(progress: StateProgress<E>, events: &mut Vec<E>) -> (ongoing: bool)
    ensures
        match progress {
            StateProgress::NothingOngoing => !ongoing && final(events)@ == old(events)@,
            StateProgress::Ongoing => ongoing && final(events)@ == old(events)@,
            StateProgress::Event(e) => ongoing && final(events)@ == old(events)@.push(e),
        },
{
    match progress {
        StateProgress::NothingOngoing => false,
        StateProgress::Ongoing => true,
        StateProgress::Event(e) => {
            events.push(e);
            true
        },
    }
}

/// Applies one received message to the backend's state: the initial payload
/// builds the live state, a trigger advances it. A trigger can only arrive
/// once the state is built — the embedding submits the initial payload
/// first, so an unbuilt state on a trigger cannot occur.
pub fn apply_input<F: BackgroundFunction>(
    function: F,
    state: &mut Option<F::State>,
    input: Input<F::InitialState, F::Trigger>,
    events: &mut Vec<F::Event>,
)
    requires
        input is Trigger ==> *old(state) is Some,
    ensures
        *final(state) is Some,
        match input {
            Input::Initial(init) => {
                &&& *final(state) == Some(function.init_spec(init).0)
                &&& final(events)@ == old(events)@ + function.init_spec(init).1
            },
            Input::Trigger(t) => {
                &&& *final(state) == Some(F::trigger_spec((*old(state))->0, t).0)
                &&& final(events)@ == old(events)@ + F::trigger_spec((*old(state))->0, t).1
            },
        },
{
    match input {
        Input::Initial(init) => {
            *state = Some(function.initial_state(init, events));
        },
        Input::Trigger(t) => {
            let live = state.as_mut().unwrap();
            F::trigger(live, t, events);
        },
    }
}

/// Merging one more pending event into the fold of the ones before it gives
/// the fold of all of them.
proof fn lemma_merge_fold_step<F: BackgroundFunction>(events: Seq<F::Event>, i: int)
    requires
        1 <= i < events.len(),
    ensures
        merge_fold::<F>(events.take(i + 1)) == F::merge_spec(
            merge_fold::<F>(events.take(i)),
            events[i],
        ),
{
    assert(events.take(i + 1).drop_last() =~= events.take(i));
    assert(events.take(i + 1).last() == events[i]);
}

/// The caller-side bookkeeping of a background task: the folded ongoing
/// flag, the settled/busy notifications not yet folded in, and the events
/// not yet collected. The transport pushes whatever arrives from the
/// backend; the caller polls, never blocking, through [`Self::is_ongoing`]
/// and [`Self::event`].
pub struct BackgroundCore<F: BackgroundFunction> {
    ongoing: bool,
    notes: Vec<bool>,
    events: Vec<F::Event>,
}

impl<F: BackgroundFunction> BackgroundCore<F> {
    /// Whether, after the notifications folded in so far, work is
    /// outstanding in the backend.
    pub closed spec fn busy(self) -> bool {
        self.ongoing
    }

    /// The busy/settled notifications received but not yet folded in, in
    /// arrival order.
    pub closed spec fn pending_notes(self) -> Seq<bool> {
        self.notes@
    }

    /// The events received but not yet collected, in arrival order.
    pub closed spec fn pending_events(self) -> Seq<F::Event> {
        self.events@
    }

    /// A new task counts as busy: its backend is still building the initial
    /// state, and stays busy until it reports that settled.
    pub fn new() -> (core: Self)
        ensures
            core.busy(),
            core.pending_notes() =~= Seq::<bool>::empty(),
            core.pending_events() =~= Seq::<F::Event>::empty(),
    {
        BackgroundCore { ongoing: true, notes: Vec::new(), events: Vec::new() }
    }

    /// Records that a trigger was just submitted: the task counts as busy at
    /// least until the backend later reports it settled, so a poll right
    /// after a trigger always sees outstanding work.
    pub fn note_trigger(&mut self)
        ensures
            final(self).busy(),
            final(self).pending_notes() =~= old(self).pending_notes(),
            final(self).pending_events() =~= old(self).pending_events(),
    {
        self.ongoing = true;
    }

    /// The transport hands over one busy/settled notification from the
    /// backend.
    pub fn push_note(&mut self, busy: bool)
        ensures
            final(self).pending_notes() =~= old(self).pending_notes().push(busy),
            final(self).pending_events() =~= old(self).pending_events(),
            final(self).busy() == old(self).busy(),
    {
        self.notes.push(busy);
    }

    /// The transport hands over one event from the backend.
    pub fn push_event(&mut self, event: F::Event)
        ensures
            final(self).pending_events() =~= old(self).pending_events().push(event),
            final(self).pending_notes() =~= old(self).pending_notes(),
            final(self).busy() == old(self).busy(),
    {
        self.events.push(event);
    }

    /// Folds every pending notification into the ongoing flag — the latest
    /// report wins — and tells whether work is outstanding. Callable every
    /// tick; never blocks.
    pub fn is_ongoing(&mut self) -> (r: bool)
        ensures
            final(self).pending_notes() =~= Seq::<bool>::empty(),
            final(self).busy() == if old(self).pending_notes().len() == 0 {
                old(self).busy()
            } else {
                old(self).pending_notes().last()
            },
            r == final(self).busy(),
            final(self).pending_events() =~= old(self).pending_events(),
    {
        if self.notes.len() > 0 {
            self.ongoing = self.notes[self.notes.len() - 1];
            self.notes.clear();
        }
        self.ongoing
    }

    /// Collects the pending events: drains the buffer completely — nothing
    /// is ever left stranded for a later drain — and merges the drained
    /// events pairwise in arrival order into one value. Nothing pending
    /// yields nothing.
    pub fn event(&mut self) -> (r: Option<F::Event>)
        ensures
            final(self).pending_events() =~= Seq::<F::Event>::empty(),
            old(self).pending_events().len() == 0 ==> r is None,
            old(self).pending_events().len() > 0 ==> r == Some(
                merge_fold::<F>(old(self).pending_events()),
            ),
            final(self).busy() == old(self).busy(),
            final(self).pending_notes() =~= old(self).pending_notes(),
    {
        if self.events.len() == 0 {
            return None;
        }
        let ghost orig = self.events@;
        let mut acc = self.events.remove(0);
        let ghost mut i: int = 1;
        proof {
            assert(acc == merge_fold::<F>(orig.take(1)));
        }
        while self.events.len() > 0
            invariant
                1 <= i <= orig.len(),
                self.events@ =~= orig.skip(i),
                acc == merge_fold::<F>(orig.take(i)),
                self.notes@ =~= old(self).notes@,
                self.ongoing == old(self).ongoing,
            decreases orig.len() - i,
        {
            let next = self.events.remove(0);
            proof {
                assert(next == orig[i]);
                lemma_merge_fold_step::<F>(orig, i);
            }
            F::event_merge(&mut acc, next);
            proof {
                i = i + 1;
            }
        }
        proof {
            assert(orig.take(orig.len() as int) =~= orig);
        }
        Some(acc)
    }
}

} // verus!
