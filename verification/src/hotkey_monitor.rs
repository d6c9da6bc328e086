//! Global hotkey to dictation effects.
//!
//! keytap watches the keyboard and resolves chords. This module decides which
//! chords it watches for, what a chord event means for the recording, and
//! what the host does about it.
//!
//! When the held keys grow from the push-to-talk chord into the toggle chord,
//! keytap reports the end of the one and the start of the other with the same
//! time stamp. The pair is one [`Effect::RestartRecording`], so after an end
//! the dispatcher waits a moment for a start that belongs to it.
use keytap::chord::Chord;
use keytap::chord::ChordMatcher;
use keytap::chord::ChordMatcherBuilder;
use keytap::Key;
use std::fmt::Debug;
use std::hash::Hash;
use vstd::prelude::*;

verus! {

/// Semantic action a chord can be bound to. `PushToTalk`: hold the chord to
/// record, release it to stop. `ToggleToTalk`: press the chord to start
/// recording, press it again to stop.
#[derive(Debug, Clone, Copy, PartialEq, Eq, Hash, Structural)]
pub enum ChordAction {
    PushToTalk,
    ToggleToTalk,
}

/// Effect a chord event has on the recording.
#[derive(Debug, Clone, Copy, PartialEq, Eq, Structural)]
pub enum Effect {
    StartRecording(ChordAction),
    StopRecording(ChordAction),
    /// A push-to-talk chord became the toggle chord while it was held: what
    /// was recorded up to here may be discarded.
    RestartRecording(ChordAction),
}

// ------------------------------------------------------------------
// Bindings
// ------------------------------------------------------------------
/// A physical key, as keytap names it.
#[verifier::external_type_specification]
#[verifier::external_body]
pub struct ExKey(keytap::Key);

/// A set of keys that are held together.
#[verifier::external_type_specification]
#[verifier::external_body]
pub struct ExChord(keytap::chord::Chord);

/// The chords a keytap matcher will watch for.
#[verifier::external_type_specification]
#[verifier::external_body]
#[verifier::reject_recursive_types(Id)]
pub struct ExChordMatcherBuilder<Id: Clone + Debug + Eq + Hash + Send + 'static>(
    keytap::chord::ChordMatcherBuilder<Id>,
);

/// The keys of each chord. No keys: the action is not bound.
#[derive(Debug)]
pub struct Bindings {
    pub push_to_talk: Vec<Key>,
    pub toggle_to_talk: Vec<Key>,
}

/// [`Bindings`] in specifications.
pub struct Chords {
    pub push_to_talk: Seq<Key>,
    pub toggle_to_talk: Seq<Key>,
}

impl View for Bindings {
    type V = Chords;

    open spec fn view(&self) -> Chords {
        Chords { push_to_talk: self.push_to_talk@, toggle_to_talk: self.toggle_to_talk@ }
    }
}

impl Chords {
    /// Neither action is bound.
    pub open spec fn all_empty(self) -> bool {
        self.push_to_talk.len() == 0 && self.toggle_to_talk.len() == 0
    }

    /// The chords to watch for: push-to-talk ends with the release of a key,
    /// toggle stays active between presses. An unbound action has no chord.
    pub open spec fn registrations(self) -> Seq<(ChordAction, Set<Key>, bool)> {
        let held = if self.push_to_talk.len() > 0 {
            seq![(ChordAction::PushToTalk, self.push_to_talk.to_set(), false)]
        } else {
            Seq::empty()
        };
        if self.toggle_to_talk.len() > 0 {
            held.push((ChordAction::ToggleToTalk, self.toggle_to_talk.to_set(), true))
        } else {
            held
        }
    }
}

/// The keys of a chord.
pub uninterp spec fn chord_keys(chord: Chord) -> Set<Key>;

/// The chords that have been added to a builder, in order: the action, its
/// keys, and whether the chord toggles.
pub uninterp spec fn registered(builder: ChordMatcherBuilder<ChordAction>) -> Seq<
    (ChordAction, Set<Key>, bool),
>;

/// `keytap::chord::ChordMatcher::builder` gives a builder without chords.
#[verifier::external_body]
fn empty_builder() -> (r: ChordMatcherBuilder<ChordAction>)
    ensures
        registered(r) == Seq::<(ChordAction, Set<Key>, bool)>::empty(),
{
    ChordMatcher::builder()
}

/// `keytap::chord::Chord::of` gives a chord of the keys of `keys`, each once and
/// in no order.
#[verifier::external_body]
fn chord_of(keys: Vec<Key>) -> (r: Chord)
    ensures
        chord_keys(r) == keys@.to_set(),
{
    Chord::of(keys)
}

/// `keytap::chord::ChordMatcherBuilder::add` adds, after the chords that are
/// already there, one that ends with the release of a key.
#[verifier::external_body]
fn add_momentary(
    builder: ChordMatcherBuilder<ChordAction>,
    action: ChordAction,
    chord: Chord,
) -> (r: ChordMatcherBuilder<ChordAction>)
    ensures
        registered(r) == registered(builder).push((action, chord_keys(chord), false)),
{
    builder.add(action, chord)
}

/// `keytap::chord::ChordMatcherBuilder::add_toggle` adds, after the chords
/// that are already there, one that stays active between presses.
#[verifier::external_body]
fn add_toggling(
    builder: ChordMatcherBuilder<ChordAction>,
    action: ChordAction,
    chord: Chord,
) -> (r: ChordMatcherBuilder<ChordAction>)
    ensures
        registered(r) == registered(builder).push((action, chord_keys(chord), true)),
{
    builder.add_toggle(action, chord)
}

/// The same keys once more.
fn copied(keys: &Vec<Key>) -> (r: Vec<Key>)
    ensures
        r@ == keys@,
{
    let mut r: Vec<Key> = Vec::new();
    for i in 0..keys.len()
        invariant
            r@ == keys@.take(i as int),
    {
        r.push(keys[i]);
    }
    assert(keys@.take(keys@.len() as int) =~= keys@);
    r
}

impl Bindings {
    /// The same bindings once more.
    pub fn duplicate(&self) -> (r: Self)
        ensures
            r@ == self@,
            r.push_to_talk@ == self.push_to_talk@,
            r.toggle_to_talk@ == self.toggle_to_talk@,
    {
        Bindings {
            push_to_talk: copied(&self.push_to_talk),
            toggle_to_talk: copied(&self.toggle_to_talk),
        }
    }
}

/// Prepares a matcher for the chords of `bindings`.
pub fn build_matcher(bindings: &Bindings) -> (r: ChordMatcherBuilder<ChordAction>)
    ensures
        registered(r) == bindings@.registrations(),
        registered(r).len() == (if bindings.push_to_talk@.len() > 0 {
            1int
        } else {
            0
        }) + (if bindings.toggle_to_talk@.len() > 0 {
            1int
        } else {
            0
        }),
        bindings.push_to_talk@.len() > 0 ==> {
            &&& registered(r).first().0 == ChordAction::PushToTalk
            &&& !registered(r).first().2
            &&& forall|key: Key|
                #[trigger] registered(r).first().1.contains(key) <==> bindings.push_to_talk@.contains(key)
        },
        bindings.toggle_to_talk@.len() > 0 ==> {
            &&& registered(r).last().0 == ChordAction::ToggleToTalk
            &&& registered(r).last().2
            &&& forall|key: Key|
                #[trigger] registered(r).last().1.contains(key) <==> bindings.toggle_to_talk@.contains(key)
        },
{
    let mut builder = empty_builder();
    if bindings.push_to_talk.len() > 0 {
        builder = add_momentary(
            builder,
            ChordAction::PushToTalk,
            chord_of(copied(&bindings.push_to_talk)),
        );
        assert(registered(builder) =~= seq![
            (ChordAction::PushToTalk, bindings.push_to_talk@.to_set(), false),
        ]);
    }
    if bindings.toggle_to_talk.len() > 0 {
        builder = add_toggling(
            builder,
            ChordAction::ToggleToTalk,
            chord_of(copied(&bindings.toggle_to_talk)),
        );
    }
    builder
}

// ------------------------------------------------------------------
// Monitor
// ------------------------------------------------------------------
/// One thing the host does when the bindings change, in order.
#[derive(Debug, Clone, Copy, PartialEq, Eq, Structural)]
pub enum MonitorStep {
    /// Nothing that is left would ever take down the Escape watcher.
    DisarmEscapeCancel,
    /// Tell the running dispatcher to stop, and wait until it has.
    StopDispatcher,
    /// Build a matcher for the bindings in force and dispatch its events.
    BuildMatcher,
}

/// The bindings in force, and whether their chords are being watched for.
#[derive(Debug)]
pub struct HotkeyMonitor {
    bindings: Bindings,
    active: bool,
}

/// What taking over `chords` asks of the host.
pub open spec fn takeover(active: bool, chords: Chords) -> Seq<MonitorStep> {
    let torn_down = if active {
        seq![MonitorStep::DisarmEscapeCancel, MonitorStep::StopDispatcher]
    } else {
        seq![MonitorStep::DisarmEscapeCancel]
    };
    if chords.all_empty() {
        torn_down
    } else {
        torn_down.push(MonitorStep::BuildMatcher)
    }
}

impl HotkeyMonitor {
    /// The bindings in force.
    pub closed spec fn chords(self) -> Chords {
        self.bindings@
    }

    /// A dispatcher is running.
    pub closed spec fn active(self) -> bool {
        self.active
    }

    /// A monitor for `bindings`, and what that asks of the host.
    pub fn spawn(bindings: Bindings) -> (r: (Self, Vec<MonitorStep>))
        ensures
            r.0.chords() == bindings@,
            r.0.chords().push_to_talk == bindings.push_to_talk@,
            r.0.chords().toggle_to_talk == bindings.toggle_to_talk@,
            !r.0.active(),
            r.1@ == takeover(false, bindings@),
            r.1@ == (if bindings@.push_to_talk.len() > 0 || bindings@.toggle_to_talk.len() > 0 {
                seq![MonitorStep::DisarmEscapeCancel, MonitorStep::BuildMatcher]
            } else {
                seq![MonitorStep::DisarmEscapeCancel]
            }),
    {
        let mut monitor = HotkeyMonitor {
            bindings: Bindings { push_to_talk: Vec::new(), toggle_to_talk: Vec::new() },
            active: false,
        };
        let steps = monitor.apply(bindings);
        assert(seq![MonitorStep::DisarmEscapeCancel].push(MonitorStep::BuildMatcher) =~= seq![
            MonitorStep::DisarmEscapeCancel,
            MonitorStep::BuildMatcher,
        ]);
        (monitor, steps)
    }

    /// Swaps in another set of bindings. Nothing is watched for until the host
    /// reports that the matcher was built.
    pub fn update_bindings(&mut self, bindings: Bindings) -> (steps: Vec<MonitorStep>)
        ensures
            final(self).chords() == bindings@,
            final(self).chords().push_to_talk == bindings.push_to_talk@,
            final(self).chords().toggle_to_talk == bindings.toggle_to_talk@,
            !final(self).active(),
            steps@ == takeover(old(self).active(), bindings@),
            steps@.len() == 1 + (if old(self).active() {
                1int
            } else {
                0
            }) + (if bindings@.push_to_talk.len() > 0 || bindings@.toggle_to_talk.len() > 0 {
                1int
            } else {
                0
            }),
            steps@.first() == MonitorStep::DisarmEscapeCancel,
            old(self).active() ==> steps@[1] == MonitorStep::StopDispatcher,
            bindings@.push_to_talk.len() > 0 || bindings@.toggle_to_talk.len() > 0 ==> steps@.last()
                == MonitorStep::BuildMatcher,
    {
        self.apply(bindings)
    }

    /// Starts over with the bindings in force, forgetting what the matcher
    /// took to be held.
    pub fn reset(&mut self) -> (steps: Vec<MonitorStep>)
        ensures
            final(self).chords() == old(self).chords(),
            !final(self).active(),
            steps@ == takeover(old(self).active(), old(self).chords()),
            steps@.len() == 1 + (if old(self).active() {
                1int
            } else {
                0
            }) + (if old(self).chords().push_to_talk.len() > 0 || old(self).chords().toggle_to_talk.len() > 0 {
                1int
            } else {
                0
            }),
            steps@.first() == MonitorStep::DisarmEscapeCancel,
            old(self).active() ==> steps@[1] == MonitorStep::StopDispatcher,
            old(self).chords().push_to_talk.len() > 0 || old(self).chords().toggle_to_talk.len() > 0 ==> steps@.last()
                == MonitorStep::BuildMatcher,
    {
        let bindings = self.bindings.duplicate();
        self.apply(bindings)
    }

    fn apply(&mut self, bindings: Bindings) -> (steps: Vec<MonitorStep>)
        ensures
            final(self).chords() == bindings@,
            !final(self).active(),
            steps@ == takeover(old(self).active(), bindings@),
    {
        let mut steps: Vec<MonitorStep> = Vec::new();
        steps.push(MonitorStep::DisarmEscapeCancel);
        if self.active {
            steps.push(MonitorStep::StopDispatcher);
            self.active = false;
        }
        let all_empty = bindings.push_to_talk.len() == 0 && bindings.toggle_to_talk.len() == 0;
        self.bindings = bindings;
        if !all_empty {
            steps.push(MonitorStep::BuildMatcher);
        }
        assert(steps@ =~= takeover(old(self).active(), bindings@));
        steps
    }

    /// The chords of the bindings in force, for the matcher the host builds.
    pub fn matcher(&self) -> (r: ChordMatcherBuilder<ChordAction>)
        ensures
            registered(r) == self.chords().registrations(),
            registered(r).len() == (if self.chords().push_to_talk.len() > 0 {
                1int
            } else {
                0
            }) + (if self.chords().toggle_to_talk.len() > 0 {
                1int
            } else {
                0
            }),
            self.chords().push_to_talk.len() > 0 ==> {
                &&& registered(r).first().0 == ChordAction::PushToTalk
                &&& !registered(r).first().2
                &&& forall|key: Key|
                    #[trigger] registered(r).first().1.contains(key) <==> self.chords().push_to_talk.contains(key)
            },
            self.chords().toggle_to_talk.len() > 0 ==> {
                &&& registered(r).last().0 == ChordAction::ToggleToTalk
                &&& registered(r).last().2
                &&& forall|key: Key|
                    #[trigger] registered(r).last().1.contains(key) <==> self.chords().toggle_to_talk.contains(key)
            },
    {
        build_matcher(&self.bindings)
    }

    /// Takes note of whether the host could build the matcher. Where it could
    /// not, chord detection stays off.
    pub fn matcher_built(&mut self, built: bool)
        ensures
            final(self).active() == built,
            final(self).chords() == old(self).chords(),
    {
        self.active = built;
    }

    /// Takes everything down.
    pub fn shutdown(&mut self) -> (steps: Vec<MonitorStep>)
        ensures
            !final(self).active(),
            final(self).chords() == old(self).chords(),
            steps@ == (if old(self).active() {
                seq![MonitorStep::DisarmEscapeCancel, MonitorStep::StopDispatcher]
            } else {
                seq![MonitorStep::DisarmEscapeCancel]
            }),
    {
        let mut steps: Vec<MonitorStep> = Vec::new();
        steps.push(MonitorStep::DisarmEscapeCancel);
        if self.active {
            steps.push(MonitorStep::StopDispatcher);
        }
        self.active = false;
        steps
    }
}

// ------------------------------------------------------------------
// Dispatch
// ------------------------------------------------------------------
/// A chord that became active or inactive. `time` is in nanoseconds.
#[derive(Debug, Clone, Copy, PartialEq, Eq, Structural)]
pub enum ChordEvent {
    Start { id: ChordAction, time: u128 },
    End { id: ChordAction, time: u128 },
}

/// What waiting for the matcher brought.
#[derive(Debug, Clone, Copy, PartialEq, Eq, Structural)]
pub enum Poll {
    Event(ChordEvent),
    Timeout,
    Disconnected,
}

/// Where the dispatcher stands.
#[derive(Debug, Clone, Copy, PartialEq, Eq, Structural)]
pub enum Dispatcher {
    /// Waiting for the next event.
    Idle,
    /// A chord has ended; a start with the same time stamp would belong to it.
    Ended { id: ChordAction, time: u128 },
    /// The matcher is gone.
    Finished,
}

/// How long an idle dispatcher waits before it looks for a shutdown request.
pub const IDLE_WAIT_MILLIS: u64 = 100;

/// How long a start may lag behind the end it belongs to.
pub const UPGRADE_WAIT_MILLIS: u64 = 5;

impl Dispatcher {
    /// What an event does to an idle dispatcher.
    pub open spec fn on_event(event: ChordEvent) -> (Dispatcher, Seq<Effect>) {
        match event {
            ChordEvent::Start { id, time } => (
                Dispatcher::Idle,
                seq![Effect::StartRecording(id)],
            ),
            ChordEvent::End { id, time } => (Dispatcher::Ended { id, time }, Seq::empty()),
        }
    }

    /// The next state and the effects, in order.
    pub open spec fn after(self, poll: Poll) -> (Dispatcher, Seq<Effect>) {
        match (self, poll) {
            (Dispatcher::Finished, _) => (Dispatcher::Finished, Seq::empty()),
            (Dispatcher::Idle, Poll::Timeout) => (Dispatcher::Idle, Seq::empty()),
            (Dispatcher::Idle, Poll::Disconnected) => (Dispatcher::Finished, Seq::empty()),
            (Dispatcher::Idle, Poll::Event(event)) => Dispatcher::on_event(event),
            (Dispatcher::Ended { id, time }, Poll::Event(event)) => {
                if event matches ChordEvent::Start { id: started, time: at } && at == time {
                    (Dispatcher::Idle, seq![Effect::RestartRecording(event->Start_id)])
                } else {
                    let (next, effects) = Dispatcher::on_event(event);
                    (next, seq![Effect::StopRecording(id)] + effects)
                }
            },
            (Dispatcher::Ended { id, time }, _) => (
                Dispatcher::Idle,
                seq![Effect::StopRecording(id)],
            ),
        }
    }

    /// How long to wait for the next event, in milliseconds; `None` once there
    /// is nothing left to wait for. An end that has just been seen is settled
    /// before a shutdown request counts.
    pub fn next_wait(&self, shutdown: bool) -> (r: Option<u64>)
        ensures
            r == (match *self {
                Dispatcher::Idle => if shutdown {
                    None
                } else {
                    Some(100u64)
                },
                Dispatcher::Ended { .. } => Some(5u64),
                Dispatcher::Finished => None,
            }),
    {
        match *self {
            Dispatcher::Idle => if shutdown {
                None
            } else {
                Some(IDLE_WAIT_MILLIS)
            },
            Dispatcher::Ended { .. } => Some(UPGRADE_WAIT_MILLIS),
            Dispatcher::Finished => None,
        }
    }
}

/// Moves the dispatcher on by what waiting brought, and returns the effects to
/// carry out, in order.
pub fn process_event(dispatcher: &mut Dispatcher, poll: Poll) -> (effects: Vec<Effect>)
    ensures
        (*final(dispatcher), effects@) == old(dispatcher).after(poll),
        match (*old(dispatcher), poll) {
            (Dispatcher::Idle, Poll::Event(ChordEvent::Start { id, .. })) => {
                &&& *final(dispatcher) == Dispatcher::Idle
                &&& effects@ == seq![Effect::StartRecording(id)]
            },
            (Dispatcher::Idle, Poll::Event(ChordEvent::End { id, time })) => {
                &&& *final(dispatcher) == (Dispatcher::Ended { id, time })
                &&& effects@.len() == 0
            },
            (Dispatcher::Idle, Poll::Timeout) => {
                &&& *final(dispatcher) == Dispatcher::Idle
                &&& effects@.len() == 0
            },
            (Dispatcher::Idle, Poll::Disconnected) => {
                &&& *final(dispatcher) == Dispatcher::Finished
                &&& effects@.len() == 0
            },
            (
                Dispatcher::Ended { id: ended, time },
                Poll::Event(ChordEvent::Start { id, time: at }),
            ) => {
                &&& *final(dispatcher) == Dispatcher::Idle
                &&& at == time ==> effects@ == seq![Effect::RestartRecording(id)]
                &&& at != time ==> effects@ == seq![
                    Effect::StopRecording(ended),
                    Effect::StartRecording(id),
                ]
            },
            (
                Dispatcher::Ended { id: ended, .. },
                Poll::Event(ChordEvent::End { id, time: at }),
            ) => {
                &&& *final(dispatcher) == (Dispatcher::Ended { id, time: at })
                &&& effects@ == seq![Effect::StopRecording(ended)]
            },
            (Dispatcher::Ended { id: ended, .. }, _) => {
                &&& *final(dispatcher) == Dispatcher::Idle
                &&& effects@ == seq![Effect::StopRecording(ended)]
            },
            (Dispatcher::Finished, _) => {
                &&& *final(dispatcher) == Dispatcher::Finished
                &&& effects@.len() == 0
            },
        },
{
    let mut effects: Vec<Effect> = Vec::new();
    match *dispatcher {
        Dispatcher::Finished => {},
        Dispatcher::Idle => match poll {
            Poll::Timeout => {},
            Poll::Disconnected => {
                *dispatcher = Dispatcher::Finished;
            },
            Poll::Event(ChordEvent::Start { id, .. }) => {
                effects.push(Effect::StartRecording(id));
            },
            Poll::Event(ChordEvent::End { id, time }) => {
                *dispatcher = Dispatcher::Ended { id, time };
            },
        },
        Dispatcher::Ended { id: ended, time } => match poll {
            Poll::Event(ChordEvent::Start { id, time: at }) => {
                *dispatcher = Dispatcher::Idle;
                if at == time {
                    effects.push(Effect::RestartRecording(id));
                } else {
                    effects.push(Effect::StopRecording(ended));
                    effects.push(Effect::StartRecording(id));
                }
            },
            Poll::Event(ChordEvent::End { id, time: at }) => {
                effects.push(Effect::StopRecording(ended));
                *dispatcher = Dispatcher::Ended { id, time: at };
            },
            _ => {
                effects.push(Effect::StopRecording(ended));
                *dispatcher = Dispatcher::Idle;
            },
        },
    }
    assert(effects@ =~= old(dispatcher).after(poll).1);
    effects
}

// ------------------------------------------------------------------
// Escape to cancel
// ------------------------------------------------------------------
/// The Escape watcher that is running, if any.
#[derive(Debug)]
pub struct EscapeSlot<W> {
    pub watcher: Option<W>,
}

/// The watcher in the slot after arming, given the one that was spawned if one
/// was needed and could be.
pub open spec fn armed_with<W>(watcher: Option<W>, spawned: Option<W>) -> Option<W> {
    if watcher is Some {
        watcher
    } else {
        spawned
    }
}

/// Whether a watcher has to be started: none is needed while one is running,
/// so a push-to-talk recording that becomes a toggle one keeps its watcher.
pub fn arm_escape_cancel<W>(slot: &EscapeSlot<W>) -> (start: bool)
    ensures
        start == (slot.watcher is None),
{
    slot.watcher.is_none()
}

/// Takes in the watcher that was started; `None` where it could not be, and the
/// recording goes on without one. A watcher that is already there stays.
pub fn watcher_started<W>(slot: &mut EscapeSlot<W>, spawned: Option<W>)
    ensures
        final(slot).watcher == armed_with(old(slot).watcher, spawned),
        old(slot).watcher is Some ==> final(slot).watcher == old(slot).watcher,
        old(slot).watcher is None ==> final(slot).watcher == spawned,
{
    if slot.watcher.is_none() {
        slot.watcher = spawned;
    }
}

/// Empties the slot. Returns the watcher to take down, if there is one.
pub fn disarm_escape_cancel<W>(slot: &mut EscapeSlot<W>) -> (taken: Option<W>)
    ensures
        taken == old(slot).watcher,
        final(slot).watcher is None,
{
    slot.watcher.take()
}

/// The key of a raw keyboard event.
#[derive(Debug, Clone, Copy, PartialEq, Eq, Structural)]
pub enum TapKey {
    Escape,
    Other,
}

/// What waiting for a raw keyboard event brought.
#[derive(Debug, Clone, Copy, PartialEq, Eq, Structural)]
pub enum TapPoll {
    KeyDown(TapKey),
    KeyUp(TapKey),
    KeyRepeat(TapKey),
    Timeout,
    Disconnected,
}

/// Where an Escape watcher stands.
#[derive(Debug, Clone, Copy, PartialEq, Eq, Structural)]
pub struct EscapeWatch {
    /// A recording can be cancelled once.
    pub cancelled: bool,
    /// The keyboard is gone.
    pub finished: bool,
}

impl EscapeWatch {
    /// A watcher that has seen nothing yet.
    pub open spec fn fresh() -> EscapeWatch {
        EscapeWatch { cancelled: false, finished: false }
    }

    /// The next state, and whether the recording is cancelled now.
    pub open spec fn after(self, poll: TapPoll) -> (EscapeWatch, bool) {
        if self.finished {
            (self, false)
        } else if poll == TapPoll::KeyDown(TapKey::Escape) {
            (EscapeWatch { cancelled: true, ..self }, !self.cancelled)
        } else if poll == TapPoll::Disconnected {
            (EscapeWatch { finished: true, ..self }, false)
        } else {
            (self, false)
        }
    }

    pub fn new() -> (watch: Self)
        ensures
            watch == EscapeWatch::fresh(),
            !watch.cancelled && !watch.finished,
    {
        EscapeWatch { cancelled: false, finished: false }
    }

    /// Whether to keep waiting for events.
    pub fn keeps_watching(&self, shutdown: bool) -> (r: bool)
        ensures
            r == (!shutdown && !self.finished),
    {
        !shutdown && !self.finished
    }
}

/// Moves a watcher on by what waiting brought, and returns whether the
/// recording is cancelled now.
pub fn escape_step(watch: &mut EscapeWatch, poll: TapPoll) -> (cancel: bool)
    ensures
        (*final(watch), cancel) == old(watch).after(poll),
        cancel <==> !old(watch).finished && !old(watch).cancelled && poll == TapPoll::KeyDown(
            TapKey::Escape,
        ),
        final(watch).cancelled <==> old(watch).cancelled || cancel,
        final(watch).finished <==> old(watch).finished || poll == TapPoll::Disconnected,
{
    if watch.finished {
        return false;
    }
    match poll {
        TapPoll::KeyDown(TapKey::Escape) => {
            let cancel = !watch.cancelled;
            watch.cancelled = true;
            cancel
        },
        TapPoll::Disconnected => {
            watch.finished = true;
            false
        },
        _ => false,
    }
}

// ------------------------------------------------------------------
// Effects on the host
// ------------------------------------------------------------------
/// One thing the host does.
#[derive(Debug, Clone, Copy, PartialEq, Eq, Structural)]
pub enum HostAction {
    /// Remember which window has the focus.
    CaptureFocus,
    ArmEscapeCancel,
    DisarmEscapeCancel,
    /// Let the dictation window take clicks again.
    AcceptCursorEvents,
    PositionWindow,
    /// Have the compositor place the window.
    RefreshOverlayRules,
    ShowWindow,
    /// Tell the window, along with the focus that was captured.
    EmitStart,
    EmitStop,
    EmitRestart,
    /// Tell the window that the recording is cancelled.
    EmitCancel,
}

/// What `effect` asks of the host whether or not there is a window.
pub open spec fn first_actions(effect: Effect) -> Seq<HostAction> {
    match effect {
        Effect::StartRecording(_) => seq![HostAction::CaptureFocus, HostAction::ArmEscapeCancel],
        Effect::StopRecording(_) => seq![HostAction::DisarmEscapeCancel],
        Effect::RestartRecording(_) => seq![HostAction::ArmEscapeCancel],
    }
}

/// What `effect` asks of the host after that. Only a window that exists is
/// touched. On Linux the compositor places it; elsewhere the host does.
pub open spec fn window_actions(effect: Effect, window: bool, linux: bool) -> Seq<HostAction> {
    if !window {
        Seq::empty()
    } else {
        match effect {
            Effect::StartRecording(_) => if linux {
                seq![
                    HostAction::RefreshOverlayRules,
                    HostAction::ShowWindow,
                    HostAction::EmitStart,
                ]
            } else {
                seq![
                    HostAction::AcceptCursorEvents,
                    HostAction::PositionWindow,
                    HostAction::ShowWindow,
                    HostAction::EmitStart,
                ]
            },
            Effect::StopRecording(_) => seq![HostAction::EmitStop],
            Effect::RestartRecording(_) => seq![HostAction::EmitRestart],
        }
    }
}

/// All that `effect` asks of the host, in order.
pub open spec fn host_actions(effect: Effect, window: bool, linux: bool) -> Seq<HostAction> {
    first_actions(effect) + window_actions(effect, window, linux)
}

/// What `effect` asks of the host whether or not there is a window. The window
/// is looked for afterwards, so that nothing comes before the focus is captured.
pub fn apply_effect(effect: Effect) -> (actions: Vec<HostAction>)
    ensures
        actions@ == first_actions(effect),
        effect is StartRecording ==> actions@ == seq![
            HostAction::CaptureFocus,
            HostAction::ArmEscapeCancel,
        ],
        effect is StopRecording ==> actions@ == seq![HostAction::DisarmEscapeCancel],
        effect is RestartRecording ==> actions@ == seq![HostAction::ArmEscapeCancel],
{
    let actions = match effect {
        Effect::StartRecording(_) => vec![HostAction::CaptureFocus, HostAction::ArmEscapeCancel],
        Effect::StopRecording(_) => vec![HostAction::DisarmEscapeCancel],
        Effect::RestartRecording(_) => vec![HostAction::ArmEscapeCancel],
    };
    assert(actions@ =~= first_actions(effect));
    actions
}

/// What `effect` asks of the host after that, given whether there is a window.
pub fn apply_to_window(effect: Effect, window: bool, linux: bool) -> (actions: Vec<HostAction>)
    ensures
        actions@ == window_actions(effect, window, linux),
        !window ==> actions@.len() == 0,
        window && effect is StartRecording && linux ==> actions@ == seq![
            HostAction::RefreshOverlayRules,
            HostAction::ShowWindow,
            HostAction::EmitStart,
        ],
        window && effect is StartRecording && !linux ==> actions@ == seq![
            HostAction::AcceptCursorEvents,
            HostAction::PositionWindow,
            HostAction::ShowWindow,
            HostAction::EmitStart,
        ],
        window && effect is StopRecording ==> actions@ == seq![HostAction::EmitStop],
        window && effect is RestartRecording ==> actions@ == seq![HostAction::EmitRestart],
{
    let mut actions: Vec<HostAction> = Vec::new();
    if window {
        match effect {
            Effect::StartRecording(_) => {
                if linux {
                    actions.push(HostAction::RefreshOverlayRules);
                } else {
                    actions.push(HostAction::AcceptCursorEvents);
                    actions.push(HostAction::PositionWindow);
                }
                actions.push(HostAction::ShowWindow);
                actions.push(HostAction::EmitStart);
            },
            Effect::StopRecording(_) => {
                actions.push(HostAction::EmitStop);
            },
            Effect::RestartRecording(_) => {
                actions.push(HostAction::EmitRestart);
            },
        }
    }
    assert(actions@ =~= window_actions(effect, window, linux));
    actions
}

/// What a watcher that cancels asks of the host: to tell the window, where there
/// is one.
pub fn cancel_action(cancel: bool, window: bool) -> (r: Option<HostAction>)
    ensures
        r == (if cancel && window {
            Some(HostAction::EmitCancel)
        } else {
            None
        }),
{
    if cancel && window {
        Some(HostAction::EmitCancel)
    } else {
        None
    }
}

/// The event the dictation window is sent, for the actions that send one.
pub open spec fn event_text(action: HostAction) -> Option<Seq<char>> {
    match action {
        HostAction::EmitStart => Some("dictate:start"@),
        HostAction::EmitStop => Some("dictate:stop"@),
        HostAction::EmitRestart => Some("dictate:restart"@),
        HostAction::EmitCancel => Some("dictate:cancel"@),
        _ => None,
    }
}

/// The event the dictation window is sent, for the actions that send one.
pub fn event_name(action: HostAction) -> (r: Option<String>)
    ensures
        event_text(action) == (match r {
            Some(name) => Some(name@),
            None => None,
        }),
        match action {
            HostAction::EmitStart => r matches Some(name) && name@ == "dictate:start"@,
            HostAction::EmitStop => r matches Some(name) && name@ == "dictate:stop"@,
            HostAction::EmitRestart => r matches Some(name) && name@ == "dictate:restart"@,
            HostAction::EmitCancel => r matches Some(name) && name@ == "dictate:cancel"@,
            _ => r is None,
        },
{
    match action {
        HostAction::EmitStart => Some("dictate:start".to_string()),
        HostAction::EmitStop => Some("dictate:stop".to_string()),
        HostAction::EmitRestart => Some("dictate:restart".to_string()),
        HostAction::EmitCancel => Some("dictate:cancel".to_string()),
        _ => None,
    }
}

} // verus!
