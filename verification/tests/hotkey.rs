use keytap::Key;
use voicebox::hotkey_monitor::apply_effect;
use voicebox::hotkey_monitor::apply_to_window;
use voicebox::hotkey_monitor::arm_escape_cancel;
use voicebox::hotkey_monitor::build_matcher;
use voicebox::hotkey_monitor::cancel_action;
use voicebox::hotkey_monitor::disarm_escape_cancel;
use voicebox::hotkey_monitor::escape_step;
use voicebox::hotkey_monitor::event_name;
use voicebox::hotkey_monitor::process_event;
use voicebox::hotkey_monitor::watcher_started;
use voicebox::hotkey_monitor::Bindings;
use voicebox::hotkey_monitor::ChordAction;
use voicebox::hotkey_monitor::ChordEvent;
use voicebox::hotkey_monitor::Dispatcher;
use voicebox::hotkey_monitor::Effect;
use voicebox::hotkey_monitor::EscapeSlot;
use voicebox::hotkey_monitor::EscapeWatch;
use voicebox::hotkey_monitor::HostAction;
use voicebox::hotkey_monitor::HotkeyMonitor;
use voicebox::hotkey_monitor::MonitorStep;
use voicebox::hotkey_monitor::Poll;
use voicebox::hotkey_monitor::TapKey;
use voicebox::hotkey_monitor::TapPoll;

const PTT: ChordAction = ChordAction::PushToTalk;
const TOGGLE: ChordAction = ChordAction::ToggleToTalk;

fn start(id: ChordAction, time: u128) -> Poll {
    Poll::Event(ChordEvent::Start { id, time })
}

fn end(id: ChordAction, time: u128) -> Poll {
    Poll::Event(ChordEvent::End { id, time })
}

fn run(polls: &[Poll]) -> (Dispatcher, Vec<Effect>) {
    let mut dispatcher = Dispatcher::Idle;
    let mut effects = Vec::new();
    for poll in polls {
        effects.extend(process_event(&mut dispatcher, *poll));
    }
    (dispatcher, effects)
}

fn bindings(push_to_talk: &[Key], toggle_to_talk: &[Key]) -> Bindings {
    Bindings { push_to_talk: push_to_talk.to_vec(), toggle_to_talk: toggle_to_talk.to_vec() }
}

// ------------------------------------------------------------------
// Dispatch
// ------------------------------------------------------------------

#[test]
fn held_chord_records_until_released() {
    let (dispatcher, effects) = run(&[start(PTT, 1), Poll::Timeout, end(PTT, 9), Poll::Timeout]);
    assert_eq!(effects, vec![Effect::StartRecording(PTT), Effect::StopRecording(PTT)]);
    assert_eq!(dispatcher, Dispatcher::Idle);
}

#[test]
fn upgrade_to_toggle_restarts() {
    let (dispatcher, effects) = run(&[start(PTT, 1), end(PTT, 9), start(TOGGLE, 9)]);
    assert_eq!(effects, vec![Effect::StartRecording(PTT), Effect::RestartRecording(TOGGLE)]);
    assert_eq!(dispatcher, Dispatcher::Idle);
}

#[test]
fn later_start_is_another_recording() {
    let (_, effects) = run(&[end(PTT, 9), start(TOGGLE, 10)]);
    assert_eq!(effects, vec![Effect::StopRecording(PTT), Effect::StartRecording(TOGGLE)]);
}

#[test]
fn two_ends_in_a_row_are_two_stops() {
    let (dispatcher, effects) = run(&[end(PTT, 9), end(TOGGLE, 9)]);
    assert_eq!(effects, vec![Effect::StopRecording(PTT)]);
    assert_eq!(dispatcher, Dispatcher::Ended { id: TOGGLE, time: 9 });
    let (_, effects) = run(&[end(PTT, 9), end(TOGGLE, 9), start(PTT, 9)]);
    assert_eq!(effects, vec![Effect::StopRecording(PTT), Effect::RestartRecording(PTT)]);
}

#[test]
fn end_is_settled_even_when_the_matcher_goes() {
    let (dispatcher, effects) = run(&[end(PTT, 9), Poll::Disconnected]);
    assert_eq!(effects, vec![Effect::StopRecording(PTT)]);
    assert_eq!(dispatcher, Dispatcher::Idle);
    let (dispatcher, effects) = run(&[Poll::Disconnected, start(PTT, 1)]);
    assert_eq!(effects, vec![]);
    assert_eq!(dispatcher, Dispatcher::Finished);
}

#[test]
fn waits_are_short_after_an_end() {
    assert_eq!(Dispatcher::Idle.next_wait(false), Some(100));
    assert_eq!(Dispatcher::Idle.next_wait(true), None);
    let ended = Dispatcher::Ended { id: PTT, time: 1 };
    assert_eq!(ended.next_wait(false), Some(5));
    assert_eq!(ended.next_wait(true), Some(5));
    assert_eq!(Dispatcher::Finished.next_wait(false), None);
}

#[test]
fn every_end_stops_or_restarts() {
    let (_, effects) = run(&[
        start(PTT, 1),
        end(PTT, 2),
        start(TOGGLE, 2),
        Poll::Timeout,
        end(TOGGLE, 5),
        start(PTT, 6),
        end(PTT, 7),
        Poll::Timeout,
    ]);
    let started = effects.iter().filter(|e| matches!(e, Effect::StartRecording(_))).count();
    let stopped = effects.iter().filter(|e| matches!(e, Effect::StopRecording(_))).count();
    let restarted = effects.iter().filter(|e| matches!(e, Effect::RestartRecording(_))).count();
    assert_eq!((started, stopped, restarted), (2, 2, 1));
    assert_eq!(effects.last(), Some(&Effect::StopRecording(PTT)));
}

// ------------------------------------------------------------------
// Bindings
// ------------------------------------------------------------------

#[test]
fn both_chords_are_registered_with_their_mode() {
    let builder = build_matcher(&bindings(&[Key::A, Key::A], &[Key::B]));
    assert_eq!(
        format!("{builder:?}"),
        "ChordMatcherBuilder { registered: [\
         (PushToTalk, Chord { keys: {A} }, Momentary), \
         (ToggleToTalk, Chord { keys: {B} }, Toggle)], tap: None }"
    );
}

#[test]
fn chord_holds_all_its_keys() {
    let shown = format!("{:?}", build_matcher(&bindings(&[], &[Key::A, Key::B])));
    assert!(
        shown.contains("[(ToggleToTalk, Chord { keys: {A, B} }, Toggle)]")
            || shown.contains("[(ToggleToTalk, Chord { keys: {B, A} }, Toggle)]")
    );
}

#[test]
fn unbound_actions_have_no_chord() {
    let none = format!("{:?}", build_matcher(&bindings(&[], &[])));
    assert_eq!(none, "ChordMatcherBuilder { registered: [], tap: None }");
    let only = format!("{:?}", build_matcher(&bindings(&[Key::C], &[])));
    assert!(only.contains("[(PushToTalk, Chord { keys: {C} }, Momentary)]"));
}

#[test]
fn duplicate_bindings_are_the_same() {
    let copy = bindings(&[Key::A, Key::B], &[Key::C]).duplicate();
    assert_eq!(copy.push_to_talk, vec![Key::A, Key::B]);
    assert_eq!(copy.toggle_to_talk, vec![Key::C]);
}

// ------------------------------------------------------------------
// Monitor
// ------------------------------------------------------------------

#[test]
fn spawning_builds_a_matcher() {
    let (monitor, steps) = HotkeyMonitor::spawn(bindings(&[Key::A], &[]));
    assert_eq!(steps, vec![MonitorStep::DisarmEscapeCancel, MonitorStep::BuildMatcher]);
    assert!(format!("{:?}", monitor.matcher()).contains("PushToTalk"));
}

#[test]
fn disabled_hotkeys_watch_for_nothing() {
    let (mut monitor, steps) = HotkeyMonitor::spawn(bindings(&[], &[]));
    assert_eq!(steps, vec![MonitorStep::DisarmEscapeCancel]);
    assert_eq!(monitor.reset(), vec![MonitorStep::DisarmEscapeCancel]);
}

#[test]
fn old_session_is_torn_down_first() {
    let (mut monitor, _) = HotkeyMonitor::spawn(bindings(&[Key::A], &[]));
    monitor.matcher_built(true);
    assert_eq!(
        monitor.update_bindings(bindings(&[], &[Key::B])),
        vec![
            MonitorStep::DisarmEscapeCancel,
            MonitorStep::StopDispatcher,
            MonitorStep::BuildMatcher
        ]
    );
    assert!(format!("{:?}", monitor.matcher()).contains("ToggleToTalk"));
    monitor.matcher_built(true);
    assert_eq!(
        monitor.update_bindings(bindings(&[], &[])),
        vec![MonitorStep::DisarmEscapeCancel, MonitorStep::StopDispatcher]
    );
}

#[test]
fn reset_keeps_the_bindings() {
    let (mut monitor, _) = HotkeyMonitor::spawn(bindings(&[Key::A], &[Key::B]));
    monitor.matcher_built(true);
    let before = format!("{:?}", monitor.matcher());
    assert_eq!(
        monitor.reset(),
        vec![
            MonitorStep::DisarmEscapeCancel,
            MonitorStep::StopDispatcher,
            MonitorStep::BuildMatcher
        ]
    );
    assert_eq!(format!("{:?}", monitor.matcher()), before);
}

#[test]
fn failed_matcher_leaves_nothing_to_stop() {
    let (mut monitor, _) = HotkeyMonitor::spawn(bindings(&[Key::A], &[]));
    monitor.matcher_built(false);
    assert_eq!(monitor.shutdown(), vec![MonitorStep::DisarmEscapeCancel]);
    monitor.matcher_built(true);
    assert_eq!(
        monitor.shutdown(),
        vec![MonitorStep::DisarmEscapeCancel, MonitorStep::StopDispatcher]
    );
    assert_eq!(monitor.shutdown(), vec![MonitorStep::DisarmEscapeCancel]);
}

// ------------------------------------------------------------------
// Escape
// ------------------------------------------------------------------

#[test]
fn watcher_is_armed_once() {
    let mut slot: EscapeSlot<u8> = EscapeSlot { watcher: None };
    assert!(arm_escape_cancel(&slot));
    watcher_started(&mut slot, None);
    assert!(arm_escape_cancel(&slot));
    watcher_started(&mut slot, Some(1));
    assert!(!arm_escape_cancel(&slot));
    watcher_started(&mut slot, Some(2));
    assert_eq!(slot.watcher, Some(1));
    assert_eq!(disarm_escape_cancel(&mut slot), Some(1));
    assert_eq!(disarm_escape_cancel(&mut slot), None);
    assert!(arm_escape_cancel(&slot));
    watcher_started(&mut slot, Some(3));
    assert_eq!(slot.watcher, Some(3));
}

#[test]
fn escape_cancels_once() {
    let mut watch = EscapeWatch::new();
    let escape = TapPoll::KeyDown(TapKey::Escape);
    assert!(!escape_step(&mut watch, TapPoll::KeyDown(TapKey::Other)));
    assert!(!escape_step(&mut watch, TapPoll::KeyUp(TapKey::Escape)));
    assert!(!escape_step(&mut watch, TapPoll::KeyRepeat(TapKey::Escape)));
    assert!(!escape_step(&mut watch, TapPoll::Timeout));
    assert!(escape_step(&mut watch, escape));
    assert!(!escape_step(&mut watch, escape));
    assert!(watch.keeps_watching(false));
    assert!(!watch.keeps_watching(true));
    assert!(!escape_step(&mut watch, TapPoll::Disconnected));
    assert!(!watch.keeps_watching(false));
}

fn all_actions(effect: Effect, window: bool, linux: bool) -> Vec<HostAction> {
    let mut actions = apply_effect(effect);
    actions.extend(apply_to_window(effect, window, linux));
    actions
}

#[test]
fn watcher_lives_as_long_as_the_recording() {
    let mut slot: EscapeSlot<u8> = EscapeSlot { watcher: None };
    let mut armed = Vec::new();
    for effect in [
        Effect::StartRecording(PTT),
        Effect::RestartRecording(TOGGLE),
        Effect::StopRecording(TOGGLE),
        Effect::StartRecording(PTT),
    ] {
        for action in all_actions(effect, true, true) {
            match action {
                HostAction::ArmEscapeCancel => watcher_started(&mut slot, Some(7)),
                HostAction::DisarmEscapeCancel => {
                    disarm_escape_cancel(&mut slot);
                }
                _ => {}
            }
        }
        armed.push(slot.watcher.is_some());
    }
    assert_eq!(armed, vec![true, true, false, true]);
}

// ------------------------------------------------------------------
// Host
// ------------------------------------------------------------------

#[test]
fn focus_is_captured_before_the_window_is_looked_for() {
    assert_eq!(
        apply_effect(Effect::StartRecording(PTT)),
        vec![HostAction::CaptureFocus, HostAction::ArmEscapeCancel]
    );
    assert_eq!(
        apply_to_window(Effect::StartRecording(PTT), true, false),
        vec![
            HostAction::AcceptCursorEvents,
            HostAction::PositionWindow,
            HostAction::ShowWindow,
            HostAction::EmitStart
        ]
    );
    assert_eq!(
        apply_to_window(Effect::StartRecording(TOGGLE), true, true),
        vec![
            HostAction::RefreshOverlayRules,
            HostAction::ShowWindow,
            HostAction::EmitStart
        ]
    );
}

#[test]
fn stop_and_restart_reach_the_window() {
    assert_eq!(
        all_actions(Effect::StopRecording(PTT), true, true),
        vec![HostAction::DisarmEscapeCancel, HostAction::EmitStop]
    );
    assert_eq!(
        all_actions(Effect::RestartRecording(TOGGLE), true, false),
        vec![HostAction::ArmEscapeCancel, HostAction::EmitRestart]
    );
}

#[test]
fn missing_window_is_not_touched() {
    for effect in [
        Effect::StartRecording(PTT),
        Effect::StopRecording(PTT),
        Effect::RestartRecording(PTT),
    ] {
        assert_eq!(apply_to_window(effect, false, true), vec![]);
        assert_eq!(apply_to_window(effect, false, false), vec![]);
    }
}

#[test]
fn cancel_reaches_an_existing_window() {
    assert_eq!(cancel_action(true, true), Some(HostAction::EmitCancel));
    assert_eq!(cancel_action(true, false), None);
    assert_eq!(cancel_action(false, true), None);
}

#[test]
fn events_have_their_names() {
    assert_eq!(event_name(HostAction::EmitStart).as_deref(), Some("dictate:start"));
    assert_eq!(event_name(HostAction::EmitStop).as_deref(), Some("dictate:stop"));
    assert_eq!(event_name(HostAction::EmitRestart).as_deref(), Some("dictate:restart"));
    assert_eq!(event_name(HostAction::EmitCancel).as_deref(), Some("dictate:cancel"));
    assert_eq!(event_name(HostAction::ShowWindow), None);
}
