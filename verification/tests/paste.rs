use voicebox::linux::paste::accelerator_for_class;
use voicebox::linux::paste::is_available;
use voicebox::linux::paste::send_paste;
use voicebox::linux::paste::send_via_wtype;
use voicebox::linux::paste::unavailable_reason;
use voicebox::linux::paste::wtype_args;
use voicebox::linux::paste::Accelerator;
use voicebox::linux::paste::Attempt;
use voicebox::linux::paste::PasteStep;
use voicebox::linux::paste::WtypeRun;
use voicebox::linux::virtual_keyboard::build_device_error;
use voicebox::linux::virtual_keyboard::device_keys;
use voicebox::linux::virtual_keyboard::DeviceFailure;
use voicebox::linux::virtual_keyboard::Keystrokes;

fn text(s: &str) -> String {
    s.to_string()
}

const REASON: &str = "Auto-paste needs a way to synthesise Ctrl+V. Install `wtype` \
     (pacman -S wtype), or grant access to /dev/uinput by adding your user to \
     the `input` group and installing the udev rule shipped in \
     packaging/arch/99-voicebox-uinput.rules.";

// ------------------------------------------------------------------
// Accelerator
// ------------------------------------------------------------------

#[test]
fn terminals_get_the_shift_variant() {
    assert_eq!(
        accelerator_for_class(Some("com.mitchellh.ghostty")),
        Accelerator::Terminal
    );
    assert_eq!(accelerator_for_class(Some("Alacritty")), Accelerator::Terminal);
    assert_eq!(accelerator_for_class(Some("kitty")), Accelerator::Terminal);
}

#[test]
fn everything_else_gets_plain_ctrl_v() {
    assert_eq!(accelerator_for_class(Some("firefox")), Accelerator::Standard);
    assert_eq!(accelerator_for_class(Some("code")), Accelerator::Standard);
    assert_eq!(accelerator_for_class(None), Accelerator::Standard);
}

#[test]
fn every_marker_is_a_terminal() {
    for class in [
        "alacritty",
        "foot",
        "ghostty",
        "gnome-terminal",
        "konsole",
        "kitty",
        "org.wezfurlong.wezterm",
        "rio",
        "st-256color",
        "terminator",
        "termite",
        "tilix",
        "urxvt",
        "wezterm",
        "xfce4-terminal",
        "xterm",
    ] {
        assert_eq!(accelerator_for_class(Some(class)), Accelerator::Terminal);
        let upper = class.to_ascii_uppercase();
        assert_eq!(accelerator_for_class(Some(upper.as_str())), Accelerator::Terminal);
        let longer = format!("org.example.{class}.desktop");
        assert_eq!(accelerator_for_class(Some(longer.as_str())), Accelerator::Terminal);
    }
}

#[test]
fn only_ascii_letters_lose_their_case() {
    // U+212A is the Kelvin sign, whose Unicode lower case is a plain k.
    assert_eq!(accelerator_for_class(Some("\u{212a}itty")), Accelerator::Standard);
    assert_eq!(accelerator_for_class(Some("")), Accelerator::Standard);
    assert_eq!(accelerator_for_class(Some("kitt")), Accelerator::Standard);
}

// ------------------------------------------------------------------
// Availability
// ------------------------------------------------------------------

#[test]
fn either_way_is_enough() {
    assert!(is_available(true, true));
    assert!(is_available(true, false));
    assert!(is_available(false, true));
    assert!(!is_available(false, false));
    assert_eq!(unavailable_reason(), REASON);
}

// ------------------------------------------------------------------
// wtype
// ------------------------------------------------------------------

#[test]
fn wtype_presses_and_releases() {
    assert_eq!(
        wtype_args(Accelerator::Standard),
        vec!["-M", "ctrl", "-k", "v", "-m", "ctrl"]
    );
    assert_eq!(
        wtype_args(Accelerator::Terminal),
        vec!["-M", "ctrl", "-M", "shift", "-k", "v", "-m", "shift", "-m", "ctrl"]
    );
}

#[test]
fn wtype_runs_are_judged_by_their_status() {
    let exited = |success: bool| WtypeRun::Exited {
        success,
        status: text("exit status: 1"),
        stderr: text(" no keyboard \n"),
    };
    assert_eq!(send_via_wtype(&exited(true)), Ok(()));
    assert_eq!(
        send_via_wtype(&exited(false)),
        Err(text("wtype exited with exit status: 1: no keyboard"))
    );
    assert_eq!(
        send_via_wtype(&WtypeRun::NotRun(text("not found"))),
        Err(text("could not run wtype: not found"))
    );
}

// ------------------------------------------------------------------
// Virtual keyboard
// ------------------------------------------------------------------

#[test]
fn device_declares_exactly_its_keys() {
    assert_eq!(
        device_keys(),
        vec![
            evdev::KeyCode::KEY_LEFTCTRL.code(),
            evdev::KeyCode::KEY_LEFTSHIFT.code(),
            evdev::KeyCode::KEY_V.code()
        ]
    );
    assert_eq!(device_keys(), vec![29, 42, 47]);
}

fn events_of(mut strokes: Keystrokes, fail_at: &[usize]) -> (Vec<(u16, u16, i32)>, Result<(), String>) {
    let mut events = Vec::new();
    while let Some(event) = strokes.next_event() {
        let error = if fail_at.contains(&events.len()) {
            Some(format!("errno {}", events.len()))
        } else {
            None
        };
        events.push(event);
        strokes.emitted(&error);
    }
    (events, strokes.finish())
}

#[test]
fn standard_paste_is_four_transitions() {
    let (events, result) = events_of(Keystrokes::new(Accelerator::Standard), &[]);
    assert_eq!(events, vec![(1, 29, 1), (1, 47, 1), (1, 47, 0), (1, 29, 0)]);
    assert_eq!(result, Ok(()));
}

#[test]
fn terminal_paste_releases_in_reverse() {
    let (events, result) = events_of(Keystrokes::new(Accelerator::Terminal), &[]);
    assert_eq!(
        events,
        vec![(1, 29, 1), (1, 42, 1), (1, 47, 1), (1, 47, 0), (1, 42, 0), (1, 29, 0)]
    );
    assert_eq!(result, Ok(()));
}

#[test]
fn no_key_stays_down() {
    for accelerator in [Accelerator::Standard, Accelerator::Terminal] {
        let (events, _) = events_of(Keystrokes::new(accelerator), &[0, 2]);
        let mut held: Vec<u16> = Vec::new();
        for (_, code, value) in events {
            if value == 1 {
                held.push(code);
            } else {
                held.retain(|k| *k != code);
            }
        }
        assert!(held.is_empty());
    }
}

#[test]
fn errors_do_not_strand_a_modifier() {
    let (events, result) = events_of(Keystrokes::new(Accelerator::Terminal), &[1, 3]);
    assert_eq!(events.len(), 6);
    assert_eq!(result, Err(text("could not emit KEY_LEFTSHIFT=1: errno 1")));
    let (_, result) = events_of(Keystrokes::new(Accelerator::Standard), &[3]);
    assert_eq!(result, Err(text("could not emit KEY_LEFTCTRL=0: errno 3")));
    let (_, result) = events_of(Keystrokes::new(Accelerator::Standard), &[2, 3]);
    assert_eq!(result, Err(text("could not emit KEY_V=0: errno 2")));
}

#[test]
fn missing_device_says_why() {
    assert_eq!(
        build_device_error(&DeviceFailure::Poisoned),
        "virtual keyboard mutex was poisoned"
    );
    assert_eq!(
        build_device_error(&DeviceFailure::Open(text("denied"))),
        "could not open /dev/uinput: denied"
    );
    assert_eq!(
        build_device_error(&DeviceFailure::DeclareKeys(text("denied"))),
        "could not declare keys on the virtual keyboard: denied"
    );
    assert_eq!(
        build_device_error(&DeviceFailure::Create(text("denied"))),
        "could not create the virtual keyboard: denied"
    );
}

// ------------------------------------------------------------------
// Sending
// ------------------------------------------------------------------

#[test]
fn wtype_comes_first() {
    match send_paste(Accelerator::Terminal, true, &Attempt::Untried, &Attempt::Untried) {
        PasteStep::Wtype(args) => assert_eq!(args, wtype_args(Accelerator::Terminal)),
        other => panic!("{other:?}"),
    }
    assert!(matches!(
        send_paste(Accelerator::Terminal, true, &Attempt::Sent, &Attempt::Untried),
        PasteStep::Sent
    ));
}

#[test]
fn keyboard_comes_second() {
    for (found, wtype) in [
        (false, Attempt::Untried),
        (true, Attempt::Failed(text("broken"))),
    ] {
        match send_paste(Accelerator::Standard, found, &wtype, &Attempt::Untried) {
            PasteStep::Uinput(strokes) => assert_eq!(events_of(strokes, &[]).0.len(), 4),
            other => panic!("{other:?}"),
        }
        assert!(matches!(
            send_paste(Accelerator::Standard, found, &wtype, &Attempt::Sent),
            PasteStep::Sent
        ));
    }
}

#[test]
fn failed_paste_names_every_way_that_was_tried() {
    let uinput = Attempt::Failed(text("no device"));
    match send_paste(Accelerator::Standard, true, &Attempt::Failed(text("broken")), &uinput) {
        PasteStep::Failed(error) => {
            assert_eq!(error, format!("wtype: broken; uinput: no device. {REASON}"))
        }
        other => panic!("{other:?}"),
    }
    match send_paste(Accelerator::Standard, false, &Attempt::Untried, &uinput) {
        PasteStep::Failed(error) => assert_eq!(error, format!("uinput: no device. {REASON}")),
        other => panic!("{other:?}"),
    }
}
