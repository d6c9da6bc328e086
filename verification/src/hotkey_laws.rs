//! What holds of the hotkey dispatcher over a whole session.
use crate::hotkey_monitor::armed_with;
use crate::hotkey_monitor::host_actions;
use crate::hotkey_monitor::takeover;
use crate::hotkey_monitor::ChordAction;
use crate::hotkey_monitor::ChordEvent;
use crate::hotkey_monitor::Chords;
use crate::hotkey_monitor::Dispatcher;
use crate::hotkey_monitor::Effect;
use crate::hotkey_monitor::EscapeWatch;
use crate::hotkey_monitor::HostAction;
use crate::hotkey_monitor::MonitorStep;
use crate::hotkey_monitor::Poll;
use crate::hotkey_monitor::TapKey;
use crate::hotkey_monitor::TapPoll;
use keytap::Key;
use vstd::prelude::*;

verus! {

// ------------------------------------------------------------------
// Sessions
// ------------------------------------------------------------------
/// Where the dispatcher stands after `polls` in turn, and all effects of them.
pub open spec fn session(dispatcher: Dispatcher, polls: Seq<Poll>) -> (Dispatcher, Seq<Effect>)
    decreases polls.len(),
{
    if polls.len() == 0 {
        (dispatcher, Seq::empty())
    } else {
        let (next, effects) = dispatcher.after(polls.first());
        let (end, rest) = session(next, polls.drop_first());
        (end, effects + rest)
    }
}

proof fn lemma_two(dispatcher: Dispatcher, first: Poll, second: Poll)
    ensures
        session(dispatcher, seq![first, second]) == ({
            let (middle, before) = dispatcher.after(first);
            let (end, after) = middle.after(second);
            (end, before + after)
        }),
{
    let polls = seq![first, second];
    let rest = polls.drop_first();
    assert(rest =~= seq![second]);
    let (middle, before) = dispatcher.after(first);
    let (end, after) = middle.after(second);
    assert(rest.drop_first().len() == 0);
    assert(session(end, rest.drop_first()) == (end, Seq::<Effect>::empty()));
    assert(after + Seq::<Effect>::empty() =~= after);
    assert(session(middle, rest) == (end, after));
}

/// An end and a start with the same time stamp are one restart: the recording
/// is neither stopped nor started anew.
pub proof fn law_upgrade_is_one_restart(ended: ChordAction, started: ChordAction, time: u128)
    ensures
        session(
            Dispatcher::Idle,
            seq![
                Poll::Event(ChordEvent::End { id: ended, time }),
                Poll::Event(ChordEvent::Start { id: started, time }),
            ],
        ) == (Dispatcher::Idle, seq![Effect::RestartRecording(started)]),
{
    let first = Poll::Event(ChordEvent::End { id: ended, time });
    let second = Poll::Event(ChordEvent::Start { id: started, time });
    lemma_two(Dispatcher::Idle, first, second);
    assert(Seq::<Effect>::empty() + seq![Effect::RestartRecording(started)] =~= seq![
        Effect::RestartRecording(started),
    ]);
}

/// A start with another time stamp does not belong to the end before it: the
/// recording stops, and a new one starts.
pub proof fn law_unrelated_start_is_a_new_recording(
    ended: ChordAction,
    end_time: u128,
    started: ChordAction,
    start_time: u128,
)
    requires
        start_time != end_time,
    ensures
        session(
            Dispatcher::Idle,
            seq![
                Poll::Event(ChordEvent::End { id: ended, time: end_time }),
                Poll::Event(ChordEvent::Start { id: started, time: start_time }),
            ],
        ) == (
            Dispatcher::Idle,
            seq![Effect::StopRecording(ended), Effect::StartRecording(started)],
        ),
{
    let first = Poll::Event(ChordEvent::End { id: ended, time: end_time });
    let second = Poll::Event(ChordEvent::Start { id: started, time: start_time });
    lemma_two(Dispatcher::Idle, first, second);
    assert(Seq::<Effect>::empty() + (seq![Effect::StopRecording(ended)] + seq![
        Effect::StartRecording(started),
    ]) =~= seq![Effect::StopRecording(ended), Effect::StartRecording(started)]);
}

/// An end that nothing follows stops the recording, even where the matcher is
/// gone.
pub proof fn law_lone_end_stops(ended: ChordAction, time: u128, quiet: Poll)
    requires
        quiet == Poll::Timeout || quiet == Poll::Disconnected,
    ensures
        session(
            Dispatcher::Idle,
            seq![Poll::Event(ChordEvent::End { id: ended, time }), quiet],
        ) == (Dispatcher::Idle, seq![Effect::StopRecording(ended)]),
{
    lemma_two(Dispatcher::Idle, Poll::Event(ChordEvent::End { id: ended, time }), quiet);
    assert(Seq::<Effect>::empty() + seq![Effect::StopRecording(ended)] =~= seq![
        Effect::StopRecording(ended),
    ]);
}

// ------------------------------------------------------------------
// No event is lost
// ------------------------------------------------------------------
/// How many chords `polls` report as started.
pub open spec fn starts_in(polls: Seq<Poll>) -> nat
    decreases polls.len(),
{
    if polls.len() == 0 {
        0
    } else {
        (if polls.first() matches Poll::Event(event) && event is Start {
            1nat
        } else {
            0
        }) + starts_in(polls.drop_first())
    }
}

/// How many chords `polls` report as ended.
pub open spec fn ends_in(polls: Seq<Poll>) -> nat
    decreases polls.len(),
{
    if polls.len() == 0 {
        0
    } else {
        (if polls.first() matches Poll::Event(event) && event is End {
            1nat
        } else {
            0
        }) + ends_in(polls.drop_first())
    }
}

/// How many recordings `effects` begin; a restart begins one.
pub open spec fn begun(effects: Seq<Effect>) -> nat
    decreases effects.len(),
{
    if effects.len() == 0 {
        0
    } else {
        (if effects.first() is StopRecording {
            0nat
        } else {
            1
        }) + begun(effects.drop_first())
    }
}

/// How many recordings `effects` finish; a restart finishes one.
pub open spec fn over(effects: Seq<Effect>) -> nat
    decreases effects.len(),
{
    if effects.len() == 0 {
        0
    } else {
        (if effects.first() is StartRecording {
            0nat
        } else {
            1
        }) + over(effects.drop_first())
    }
}

proof fn lemma_counts_add(first: Seq<Effect>, second: Seq<Effect>)
    ensures
        begun(first + second) == begun(first) + begun(second),
        over(first + second) == over(first) + over(second),
    decreases first.len(),
{
    if first.len() == 0 {
        assert(first + second =~= second);
    } else {
        lemma_counts_add(first.drop_first(), second);
        assert((first + second).drop_first() =~= first.drop_first() + second);
        assert((first + second).first() == first.first());
    }
}

/// How many recordings a step begins and finishes.
proof fn lemma_step_counts(dispatcher: Dispatcher, poll: Poll)
    requires
        !(dispatcher is Finished),
    ensures
        begun(dispatcher.after(poll).1) == starts_in(seq![poll]),
        over(dispatcher.after(poll).1) + (if dispatcher.after(poll).0 is Ended {
            1nat
        } else {
            0
        }) == ends_in(seq![poll]) + (if dispatcher is Ended {
            1nat
        } else {
            0
        }),
{
    reveal_with_fuel(begun, 3);
    reveal_with_fuel(over, 3);
    let effects = dispatcher.after(poll).1;
    assert(seq![poll].drop_first().len() == 0);
    assert(starts_in(seq![poll].drop_first()) == 0);
    assert(ends_in(seq![poll].drop_first()) == 0);
    if effects.len() > 0 {
        assert(effects.len() <= 2);
        if effects.len() == 2 {
            assert(effects.drop_first().first() == effects[1]);
            assert(effects.drop_first().drop_first().len() == 0);
        } else {
            assert(effects.drop_first().len() == 0);
        }
    }
}

proof fn lemma_finished_stays(polls: Seq<Poll>)
    ensures
        session(Dispatcher::Finished, polls) == (Dispatcher::Finished, Seq::<Effect>::empty()),
    decreases polls.len(),
{
    if polls.len() > 0 {
        lemma_finished_stays(polls.drop_first());
        assert(Seq::<Effect>::empty() + Seq::<Effect>::empty() =~= Seq::<Effect>::empty());
    }
}

/// As long as the matcher is there, every chord that starts begins exactly one
/// recording, and every chord that ends finishes exactly one, but for an end
/// that is still being settled.
pub proof fn law_no_event_is_lost(dispatcher: Dispatcher, polls: Seq<Poll>)
    requires
        !(session(dispatcher, polls).0 is Finished),
    ensures
        begun(session(dispatcher, polls).1) == starts_in(polls),
        over(session(dispatcher, polls).1) + (if session(dispatcher, polls).0 is Ended {
            1nat
        } else {
            0
        }) == ends_in(polls) + (if dispatcher is Ended {
            1nat
        } else {
            0
        }),
    decreases polls.len(),
{
    if dispatcher is Finished {
        lemma_finished_stays(polls);
    } else if polls.len() > 0 {
        let poll = polls.first();
        let rest = polls.drop_first();
        let (next, effects) = dispatcher.after(poll);
        law_no_event_is_lost(next, rest);
        lemma_step_counts(dispatcher, poll);
        lemma_counts_add(effects, session(next, rest).1);
        assert(seq![poll].first() == poll);
        assert(starts_in(seq![poll].drop_first()) == 0);
        assert(ends_in(seq![poll].drop_first()) == 0);
    }
}

/// The actions of the chords that `polls` report as started, in order.
pub open spec fn started_actions(polls: Seq<Poll>) -> Seq<ChordAction>
    decreases polls.len(),
{
    if polls.len() == 0 {
        Seq::empty()
    } else {
        let rest = started_actions(polls.drop_first());
        match polls.first() {
            Poll::Event(ChordEvent::Start { id, .. }) => seq![id] + rest,
            _ => rest,
        }
    }
}

/// The actions that the recordings begun by `effects` belong to, in order.
pub open spec fn begun_actions(effects: Seq<Effect>) -> Seq<ChordAction>
    decreases effects.len(),
{
    if effects.len() == 0 {
        Seq::empty()
    } else {
        let rest = begun_actions(effects.drop_first());
        match effects.first() {
            Effect::StartRecording(id) => seq![id] + rest,
            Effect::RestartRecording(id) => seq![id] + rest,
            Effect::StopRecording(_) => rest,
        }
    }
}

proof fn lemma_begun_actions_add(first: Seq<Effect>, second: Seq<Effect>)
    ensures
        begun_actions(first + second) == begun_actions(first) + begun_actions(second),
    decreases first.len(),
{
    if first.len() == 0 {
        assert(first + second =~= second);
        assert(begun_actions(first) + begun_actions(second) =~= begun_actions(second));
    } else {
        lemma_begun_actions_add(first.drop_first(), second);
        assert((first + second).drop_first() =~= first.drop_first() + second);
        assert((first + second).first() == first.first());
        assert(begun_actions(first + second) =~= begun_actions(first) + begun_actions(second));
    }
}

proof fn lemma_step_begins(dispatcher: Dispatcher, poll: Poll)
    requires
        !(dispatcher is Finished),
    ensures
        begun_actions(dispatcher.after(poll).1) == (match poll {
            Poll::Event(ChordEvent::Start { id, .. }) => seq![id],
            _ => Seq::<ChordAction>::empty(),
        }),
{
    reveal_with_fuel(begun_actions, 3);
    let effects = dispatcher.after(poll).1;
    let expected = match poll {
        Poll::Event(ChordEvent::Start { id, .. }) => seq![id],
        _ => Seq::<ChordAction>::empty(),
    };
    if effects.len() == 2 {
        assert(effects.drop_first().first() == effects[1]);
        assert(effects.drop_first().drop_first().len() == 0);
    } else if effects.len() == 1 {
        assert(effects.drop_first().len() == 0);
    }
    assert(begun_actions(effects) =~= expected);
}

/// As long as the matcher is there, the recordings that are begun belong to the
/// very chords that start, one after the other.
pub proof fn law_recordings_belong_to_their_chords(dispatcher: Dispatcher, polls: Seq<Poll>)
    requires
        !(session(dispatcher, polls).0 is Finished),
    ensures
        begun_actions(session(dispatcher, polls).1) == started_actions(polls),
    decreases polls.len(),
{
    if dispatcher is Finished {
        lemma_finished_stays(polls);
    } else if polls.len() > 0 {
        let (next, effects) = dispatcher.after(polls.first());
        law_recordings_belong_to_their_chords(next, polls.drop_first());
        lemma_step_begins(dispatcher, polls.first());
        lemma_begun_actions_add(effects, session(next, polls.drop_first()).1);
        assert(begun_actions(session(dispatcher, polls).1) =~= started_actions(polls));
    }
}

/// A recording is stopped once its chord has ended, under the action of that
/// chord, before anything else comes of the poll; and no other way.
pub proof fn law_only_an_end_stops(dispatcher: Dispatcher, poll: Poll)
    ensures
        (dispatcher matches Dispatcher::Ended { id, time } && !(poll matches Poll::Event(
            ChordEvent::Start { time: at, .. },
        ) && at == time)) ==> dispatcher.after(poll).1.len() > 0 && dispatcher.after(poll).1[0]
            == Effect::StopRecording(dispatcher->id),
        forall|i: int|
            0 <= i < dispatcher.after(poll).1.len() && (#[trigger] dispatcher.after(
                poll,
            ).1[i]) is StopRecording ==> dispatcher is Ended && i == 0,
{
}

/// An idle dispatcher does nothing while nothing happens; a chord that starts
/// has it record at once, and one that ends has it wait for what follows.
pub proof fn law_idle_dispatcher_follows_the_chords(id: ChordAction, time: u128)
    ensures
        Dispatcher::Idle.after(Poll::Timeout) == (Dispatcher::Idle, Seq::<Effect>::empty()),
        Dispatcher::Idle.after(Poll::Disconnected) == (
            Dispatcher::Finished,
            Seq::<Effect>::empty(),
        ),
        Dispatcher::Idle.after(Poll::Event(ChordEvent::Start { id, time })) == (
            Dispatcher::Idle,
            seq![Effect::StartRecording(id)],
        ),
        Dispatcher::Idle.after(Poll::Event(ChordEvent::End { id, time })) == (
            Dispatcher::Ended { id, time },
            Seq::<Effect>::empty(),
        ),
{
}

// ------------------------------------------------------------------
// The recorder stays in step
// ------------------------------------------------------------------
/// What carrying out `effects` makes of a recorder; `None` where one is asked
/// to start while it records, or to stop or restart while it does not.
pub open spec fn recorder(recording: bool, effects: Seq<Effect>) -> Option<bool>
    decreases effects.len(),
{
    if effects.len() == 0 {
        Some(recording)
    } else {
        match effects.first() {
            Effect::StartRecording(_) => if recording {
                None
            } else {
                recorder(true, effects.drop_first())
            },
            Effect::StopRecording(_) => if recording {
                recorder(false, effects.drop_first())
            } else {
                None
            },
            Effect::RestartRecording(_) => if recording {
                recorder(true, effects.drop_first())
            } else {
                None
            },
        }
    }
}

/// Whether a chord is active after `polls`; `None` where one is reported to
/// start while another is active, or to end while none is.
pub open spec fn chord_active(active: bool, polls: Seq<Poll>) -> Option<bool>
    decreases polls.len(),
{
    if polls.len() == 0 {
        Some(active)
    } else {
        match polls.first() {
            Poll::Event(ChordEvent::Start { .. }) => if active {
                None
            } else {
                chord_active(true, polls.drop_first())
            },
            Poll::Event(ChordEvent::End { .. }) => if active {
                chord_active(false, polls.drop_first())
            } else {
                None
            },
            _ => chord_active(active, polls.drop_first()),
        }
    }
}

proof fn lemma_recorder_adds(recording: bool, first: Seq<Effect>, second: Seq<Effect>)
    ensures
        recorder(recording, first + second) == (match recorder(recording, first) {
            Some(between) => recorder(between, second),
            None => None,
        }),
    decreases first.len(),
{
    if first.len() == 0 {
        assert(first + second =~= second);
    } else {
        assert((first + second).drop_first() =~= first.drop_first() + second);
        assert((first + second).first() == first.first());
        lemma_recorder_adds(true, first.drop_first(), second);
        lemma_recorder_adds(false, first.drop_first(), second);
    }
}

proof fn lemma_recorder_step(dispatcher: Dispatcher, active: bool, poll: Poll)
    requires
        !(dispatcher is Finished),
        dispatcher is Ended ==> !active,
        poll matches Poll::Event(event) ==> (event is Start <==> !active),
    ensures
        recorder(dispatcher is Ended || active, dispatcher.after(poll).1) == Some(
            dispatcher.after(poll).0 is Ended || (match poll {
                Poll::Event(event) => !active,
                _ => active,
            }),
        ),
{
    reveal_with_fuel(recorder, 3);
    let effects = dispatcher.after(poll).1;
    if effects.len() > 0 {
        assert(effects.len() <= 2);
        if effects.len() == 2 {
            assert(effects.drop_first().first() == effects[1]);
            assert(effects.drop_first().drop_first().len() == 0);
        } else {
            assert(effects.drop_first().len() == 0);
        }
    }
}

/// Where chords never overlap, which is what keytap reports, the recorder is
/// never asked to start twice, nor to stop or restart while it is idle. As
/// long as the matcher is there it records exactly while a chord is active,
/// and for the moment it takes to settle an end.
pub proof fn law_recorder_stays_in_step(dispatcher: Dispatcher, active: bool, polls: Seq<Poll>)
    requires
        dispatcher is Ended ==> !active,
        chord_active(active, polls) is Some,
    ensures
        recorder(dispatcher is Ended || active, session(dispatcher, polls).1) is Some,
        !(session(dispatcher, polls).0 is Finished) ==> recorder(
            dispatcher is Ended || active,
            session(dispatcher, polls).1,
        ) == Some(session(dispatcher, polls).0 is Ended || chord_active(active, polls)->0),
    decreases polls.len(),
{
    if dispatcher is Finished {
        lemma_finished_stays(polls);
    } else if polls.len() > 0 {
        let poll = polls.first();
        let rest = polls.drop_first();
        let (next, effects) = dispatcher.after(poll);
        let now = match poll {
            Poll::Event(event) => !active,
            _ => active,
        };
        lemma_recorder_step(dispatcher, active, poll);
        law_recorder_stays_in_step(next, now, rest);
        lemma_recorder_adds(
            dispatcher is Ended || active,
            effects,
            session(next, rest).1,
        );
    }
}

// ------------------------------------------------------------------
// The Escape watcher
// ------------------------------------------------------------------
/// Arming twice is arming once: a watcher that is there stays, and none is
/// spawned. Where the slot is empty, it holds the new watcher, or stays empty
/// where none could be spawned.
pub proof fn law_arming_twice_is_arming_once<W>(
    watcher: Option<W>,
    spawned: Option<W>,
    again: Option<W>,
)
    ensures
        watcher is Some ==> armed_with(watcher, spawned) == watcher,
        watcher is None ==> armed_with(watcher, spawned) == spawned,
        armed_with(watcher, spawned) is Some ==> armed_with(armed_with(watcher, spawned), again)
            == armed_with(watcher, spawned),
{
}

/// Whether the watcher is armed after `actions`.
pub open spec fn armed_after(armed: bool, actions: Seq<HostAction>) -> bool
    decreases actions.len(),
{
    if actions.len() == 0 {
        armed
    } else if actions.last() == HostAction::ArmEscapeCancel {
        true
    } else if actions.last() == HostAction::DisarmEscapeCancel {
        false
    } else {
        armed_after(armed, actions.drop_last())
    }
}

/// Whether the watcher is armed after the host has carried out `effects`.
pub open spec fn armed_through(
    armed: bool,
    effects: Seq<Effect>,
    window: bool,
    linux: bool,
) -> bool
    decreases effects.len(),
{
    if effects.len() == 0 {
        armed
    } else {
        armed_through(
            armed_after(armed, host_actions(effects.first(), window, linux)),
            effects.drop_first(),
            window,
            linux,
        )
    }
}

proof fn lemma_armed_by_effect(armed: bool, effect: Effect, window: bool, linux: bool)
    ensures
        armed_after(armed, host_actions(effect, window, linux)) == !(effect is StopRecording),
{
    reveal_with_fuel(armed_after, 7);
    let actions = host_actions(effect, window, linux);
    match effect {
        Effect::StartRecording(_) => {
            let before = seq![HostAction::CaptureFocus, HostAction::ArmEscapeCancel];
            assert(armed_after(armed, before));
            assert(!window ==> actions =~= before);
            if window && linux {
                let a = before.push(HostAction::RefreshOverlayRules);
                let b = a.push(HostAction::ShowWindow);
                let c = b.push(HostAction::EmitStart);
                assert(a.drop_last() =~= before);
                assert(b.drop_last() =~= a);
                assert(c.drop_last() =~= b);
                assert(actions =~= c);
            } else if window {
                let a = before.push(HostAction::AcceptCursorEvents);
                let b = a.push(HostAction::PositionWindow);
                let c = b.push(HostAction::ShowWindow);
                let d = c.push(HostAction::EmitStart);
                assert(a.drop_last() =~= before);
                assert(b.drop_last() =~= a);
                assert(c.drop_last() =~= b);
                assert(d.drop_last() =~= c);
                assert(actions =~= d);
            }
        },
        Effect::StopRecording(_) => {
            assert(actions.drop_last() =~= seq![HostAction::DisarmEscapeCancel] || !window);
        },
        Effect::RestartRecording(_) => {
            assert(actions.drop_last() =~= seq![HostAction::ArmEscapeCancel] || !window);
        },
    }
}

/// The Escape watcher lives exactly as long as a recording, with or without a
/// dictation window and on every platform.
pub proof fn law_watcher_lives_with_the_recording(
    recording: bool,
    effects: Seq<Effect>,
    window: bool,
    linux: bool,
)
    requires
        recorder(recording, effects) is Some,
    ensures
        recorder(recording, effects) == Some(armed_through(recording, effects, window, linux)),
    decreases effects.len(),
{
    if effects.len() > 0 {
        lemma_armed_by_effect(recording, effects.first(), window, linux);
        law_watcher_lives_with_the_recording(
            !(effects.first() is StopRecording),
            effects.drop_first(),
            window,
            linux,
        );
    }
}

/// How often a watcher cancels over `polls`.
pub open spec fn cancels(watch: EscapeWatch, polls: Seq<TapPoll>) -> nat
    decreases polls.len(),
{
    if polls.len() == 0 {
        0
    } else {
        let (next, cancel) = watch.after(polls.first());
        (if cancel {
            1nat
        } else {
            0
        }) + cancels(next, polls.drop_first())
    }
}

/// Escape is pressed while the keyboard is there.
pub open spec fn escape_pressed(polls: Seq<TapPoll>) -> bool
    decreases polls.len(),
{
    polls.len() > 0 && polls.first() != TapPoll::Disconnected && (polls.first()
        == TapPoll::KeyDown(TapKey::Escape) || escape_pressed(polls.drop_first()))
}

proof fn lemma_no_more_cancels(watch: EscapeWatch, polls: Seq<TapPoll>)
    requires
        watch.cancelled || watch.finished,
    ensures
        cancels(watch, polls) == 0,
    decreases polls.len(),
{
    if polls.len() > 0 {
        lemma_no_more_cancels(watch.after(polls.first()).0, polls.drop_first());
    }
}

/// A recording is cancelled once however often Escape is pressed, and never
/// where it is not.
pub proof fn law_one_cancel_per_recording(polls: Seq<TapPoll>)
    ensures
        cancels(EscapeWatch::fresh(), polls) == (if escape_pressed(polls) {
            1nat
        } else {
            0
        }),
    decreases polls.len(),
{
    if polls.len() > 0 {
        let (next, cancel) = EscapeWatch::fresh().after(polls.first());
        if next == EscapeWatch::fresh() {
            law_one_cancel_per_recording(polls.drop_first());
        } else {
            lemma_no_more_cancels(next, polls.drop_first());
        }
    }
}

// ------------------------------------------------------------------
// The host
// ------------------------------------------------------------------
/// The focus is captured before anything is done to the window.
pub proof fn law_focus_is_captured_first(action: ChordAction, window: bool, linux: bool)
    ensures
        host_actions(Effect::StartRecording(action), window, linux).first()
            == HostAction::CaptureFocus,
{
}

/// The window is told of every change, last of all, and of nothing else; it is
/// shown before it is told of a start. Which chord it was makes no difference.
pub proof fn law_window_is_told(action: ChordAction, other: ChordAction, linux: bool)
    ensures
        ({
            let start = host_actions(Effect::StartRecording(action), true, linux);
            let stop = host_actions(Effect::StopRecording(action), true, linux);
            let restart = host_actions(Effect::RestartRecording(action), true, linux);
            &&& start.last() == HostAction::EmitStart
            &&& start[start.len() - 2] == HostAction::ShowWindow
            &&& stop.last() == HostAction::EmitStop
            &&& restart.last() == HostAction::EmitRestart
            &&& forall|i: int|
                0 <= i < start.len() - 1 ==> !(#[trigger] start[i] is EmitStart || start[i]
                    is EmitStop || start[i] is EmitRestart || start[i] is EmitCancel)
            &&& stop == seq![HostAction::DisarmEscapeCancel, HostAction::EmitStop]
            &&& restart == seq![HostAction::ArmEscapeCancel, HostAction::EmitRestart]
        }),
        host_actions(Effect::StartRecording(action), true, linux) == host_actions(
            Effect::StartRecording(other),
            true,
            linux,
        ),
        host_actions(Effect::StartRecording(action), true, linux).contains(
            HostAction::RefreshOverlayRules,
        ) <==> linux,
        host_actions(Effect::StartRecording(action), true, linux).contains(
            HostAction::PositionWindow,
        ) <==> !linux,
{
    let start = host_actions(Effect::StartRecording(action), true, linux);
    let stop = host_actions(Effect::StopRecording(action), true, linux);
    let restart = host_actions(Effect::RestartRecording(action), true, linux);
    assert(stop =~= seq![HostAction::DisarmEscapeCancel, HostAction::EmitStop]);
    assert(restart =~= seq![HostAction::ArmEscapeCancel, HostAction::EmitRestart]);
    if linux {
        assert(start[2] == HostAction::RefreshOverlayRules);
    } else {
        assert(start[3] == HostAction::PositionWindow);
    }
}

/// Without a dictation window, nothing is done to one.
pub proof fn law_missing_window_is_left_alone(effect: Effect, linux: bool, i: int)
    requires
        0 <= i < host_actions(effect, false, linux).len(),
    ensures
        host_actions(effect, false, linux)[i] == HostAction::CaptureFocus || host_actions(
            effect,
            false,
            linux,
        )[i] == HostAction::ArmEscapeCancel || host_actions(effect, false, linux)[i]
            == HostAction::DisarmEscapeCancel,
{
}

/// The chord of each bound action is watched for, with all of its keys and no
/// others: push-to-talk as one that ends with the release of a key, toggle as one
/// that stays. Nothing else is watched for.
pub proof fn law_bound_chords_are_watched_for(chords: Chords)
    ensures
        chords.registrations().len() == (if chords.push_to_talk.len() > 0 {
            1int
        } else {
            0
        }) + (if chords.toggle_to_talk.len() > 0 {
            1int
        } else {
            0
        }),
        chords.push_to_talk.len() > 0 ==> exists|i: int|
            0 <= i < chords.registrations().len() && ({
                let (action, keys, toggles) = #[trigger] chords.registrations()[i];
                &&& action == ChordAction::PushToTalk
                &&& !toggles
                &&& forall|key: Key|
                    #[trigger] keys.contains(key) <==> chords.push_to_talk.contains(key)
            }),
        chords.toggle_to_talk.len() > 0 ==> exists|i: int|
            0 <= i < chords.registrations().len() && ({
                let (action, keys, toggles) = #[trigger] chords.registrations()[i];
                &&& action == ChordAction::ToggleToTalk
                &&& toggles
                &&& forall|key: Key|
                    #[trigger] keys.contains(key) <==> chords.toggle_to_talk.contains(key)
            }),
{
    let all = chords.registrations();
    if chords.push_to_talk.len() > 0 {
        let (action, keys, toggles) = all[0];
        assert(action == ChordAction::PushToTalk && !toggles);
        assert(forall|key: Key|
            #[trigger] keys.contains(key) <==> chords.push_to_talk.contains(key));
    }
    if chords.toggle_to_talk.len() > 0 {
        let (action, keys, toggles) = all[all.len() - 1];
        assert(action == ChordAction::ToggleToTalk && toggles);
        assert(forall|key: Key|
            #[trigger] keys.contains(key) <==> chords.toggle_to_talk.contains(key));
    }
}

/// A matcher is built exactly where there is a chord to watch for.
pub proof fn law_unbound_hotkeys_watch_for_nothing(active: bool, chords: Chords)
    ensures
        chords.all_empty() <==> chords.push_to_talk.len() == 0 && chords.toggle_to_talk.len() == 0,
        chords.all_empty() <==> chords.registrations().len() == 0,
        takeover(active, chords).contains(MonitorStep::BuildMatcher) <==> !chords.all_empty(),
{
    let steps = takeover(active, chords);
    if !chords.all_empty() {
        assert(steps.last() == MonitorStep::BuildMatcher);
        assert(steps[steps.len() - 1] == MonitorStep::BuildMatcher);
    }
}

/// Before a matcher is built, the watcher of the session it replaces is
/// disarmed and the dispatcher of that session has stopped.
pub proof fn law_old_session_goes_first(active: bool, chords: Chords)
    ensures
        takeover(active, chords).first() == MonitorStep::DisarmEscapeCancel,
        active ==> takeover(active, chords)[1] == MonitorStep::StopDispatcher,
        !chords.all_empty() ==> takeover(active, chords).last() == MonitorStep::BuildMatcher,
        takeover(active, chords).len() == 1 + (if active {
            1int
        } else {
            0
        }) + (if chords.all_empty() {
            0int
        } else {
            1
        }),
{
}

} // verus!
