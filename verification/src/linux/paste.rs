//! The paste accelerator: which one the focused application takes, and how it
//! is sent.
//!
//! `wtype` comes first, since it brings its own keymap and so types the right
//! letter on every layout. A virtual keyboard sends bare key positions and is
//! the second choice.
use crate::linux::virtual_keyboard::Keystrokes;
use crate::text::ascii_lower;
use crate::text::concat3;
use crate::text::contains;
use crate::text::has_substring;
use crate::text::to_ascii_lowercase;
use crate::text::trim;
use crate::text::trimmed;
use crate::text::views;
use vstd::prelude::*;

verus! {

/// The accelerator an application expects.
#[derive(Debug, Clone, Copy, PartialEq, Eq, Structural)]
pub enum Accelerator {
    /// Ctrl+V.
    Standard,
    /// Ctrl+Shift+V: in a terminal, Ctrl+V would insert a control character.
    Terminal,
}

// ------------------------------------------------------------------
// Which accelerator
// ------------------------------------------------------------------
/// What the application ids and classes of terminal emulators hold.
pub open spec fn terminal_markers() -> Seq<Seq<char>> {
    seq![
        "alacritty"@,
        "foot"@,
        "ghostty"@,
        "gnome-terminal"@,
        "konsole"@,
        "kitty"@,
        "org.wezfurlong.wezterm"@,
        "rio"@,
        "st-256color"@,
        "terminator"@,
        "termite"@,
        "tilix"@,
        "urxvt"@,
        "wezterm"@,
        "xfce4-terminal"@,
        "xterm"@,
    ]
}

fn terminal_marker_list() -> (r: Vec<&'static str>)
    ensures
        r@.len() == terminal_markers().len(),
        forall|i: int| 0 <= i < r@.len() ==> (#[trigger] r@[i])@ == terminal_markers()[i],
{
    vec![
        "alacritty",
        "foot",
        "ghostty",
        "gnome-terminal",
        "konsole",
        "kitty",
        "org.wezfurlong.wezterm",
        "rio",
        "st-256color",
        "terminator",
        "termite",
        "tilix",
        "urxvt",
        "wezterm",
        "xfce4-terminal",
        "xterm",
    ]
}

/// Whether a window of this class is a terminal: a marker stands in it, in
/// whatever case.
pub open spec fn is_terminal(class: Seq<char>) -> bool {
    exists|i: int|
        0 <= i < terminal_markers().len() && has_substring(
            ascii_lower(class),
            #[trigger] terminal_markers()[i],
        )
}

/// A terminal is known by the name of an emulator that stands in its class.
pub proof fn law_terminals_are_known_by_name(class: Seq<char>)
    ensures
        is_terminal(class) <==> {
            ||| has_substring(ascii_lower(class), "alacritty"@)
            ||| has_substring(ascii_lower(class), "foot"@)
            ||| has_substring(ascii_lower(class), "ghostty"@)
            ||| has_substring(ascii_lower(class), "gnome-terminal"@)
            ||| has_substring(ascii_lower(class), "konsole"@)
            ||| has_substring(ascii_lower(class), "kitty"@)
            ||| has_substring(ascii_lower(class), "org.wezfurlong.wezterm"@)
            ||| has_substring(ascii_lower(class), "rio"@)
            ||| has_substring(ascii_lower(class), "st-256color"@)
            ||| has_substring(ascii_lower(class), "terminator"@)
            ||| has_substring(ascii_lower(class), "termite"@)
            ||| has_substring(ascii_lower(class), "tilix"@)
            ||| has_substring(ascii_lower(class), "urxvt"@)
            ||| has_substring(ascii_lower(class), "wezterm"@)
            ||| has_substring(ascii_lower(class), "xfce4-terminal"@)
            ||| has_substring(ascii_lower(class), "xterm"@)
        },
{
    let markers = terminal_markers();
    assert(markers[0] == "alacritty"@);
    assert(markers[1] == "foot"@);
    assert(markers[2] == "ghostty"@);
    assert(markers[3] == "gnome-terminal"@);
    assert(markers[4] == "konsole"@);
    assert(markers[5] == "kitty"@);
    assert(markers[6] == "org.wezfurlong.wezterm"@);
    assert(markers[7] == "rio"@);
    assert(markers[8] == "st-256color"@);
    assert(markers[9] == "terminator"@);
    assert(markers[10] == "termite"@);
    assert(markers[11] == "tilix"@);
    assert(markers[12] == "urxvt"@);
    assert(markers[13] == "wezterm"@);
    assert(markers[14] == "xfce4-terminal"@);
    assert(markers[15] == "xterm"@);
}

/// The accelerator for a window of the given class; a window of unknown class
/// takes the standard one.
pub fn accelerator_for_class(class: Option<&str>) -> (r: Accelerator)
    ensures
        r == (match class {
            Some(class) => if is_terminal(class@) {
                Accelerator::Terminal
            } else {
                Accelerator::Standard
            },
            None => Accelerator::Standard,
        }),
        r == Accelerator::Terminal <==> (class matches Some(name) && {
            ||| has_substring(ascii_lower(name@), "alacritty"@)
            ||| has_substring(ascii_lower(name@), "foot"@)
            ||| has_substring(ascii_lower(name@), "ghostty"@)
            ||| has_substring(ascii_lower(name@), "gnome-terminal"@)
            ||| has_substring(ascii_lower(name@), "konsole"@)
            ||| has_substring(ascii_lower(name@), "kitty"@)
            ||| has_substring(ascii_lower(name@), "org.wezfurlong.wezterm"@)
            ||| has_substring(ascii_lower(name@), "rio"@)
            ||| has_substring(ascii_lower(name@), "st-256color"@)
            ||| has_substring(ascii_lower(name@), "terminator"@)
            ||| has_substring(ascii_lower(name@), "termite"@)
            ||| has_substring(ascii_lower(name@), "tilix"@)
            ||| has_substring(ascii_lower(name@), "urxvt"@)
            ||| has_substring(ascii_lower(name@), "wezterm"@)
            ||| has_substring(ascii_lower(name@), "xfce4-terminal"@)
            ||| has_substring(ascii_lower(name@), "xterm"@)
        }),
{
    proof {
        if class is Some {
            law_terminals_are_known_by_name(class->0@);
        }
    }
    let name = match class {
        Some(name) => name,
        None => {
            return Accelerator::Standard;
        },
    };
    let lower = to_ascii_lowercase(name);
    let markers = terminal_marker_list();
    for i in 0..markers.len()
        invariant
            class == Some(name),
            lower@ == ascii_lower(name@),
            markers@.len() == terminal_markers().len(),
            forall|j: int|
                0 <= j < markers@.len() ==> (#[trigger] markers@[j])@ == terminal_markers()[j],
            forall|j: int|
                0 <= j < i ==> !has_substring(
                    lower@,
                    #[trigger] terminal_markers()[j],
                ),
    {
        assert(markers@[i as int]@ == terminal_markers()[i as int]);
        proof {
            law_terminals_are_known_by_name(name@);
        }
        if contains(lower.as_str(), markers[i]) {
            return Accelerator::Terminal;
        }
    }
    Accelerator::Standard
}

// ------------------------------------------------------------------
// Availability
// ------------------------------------------------------------------
/// Whether any way to send the accelerator is usable.
pub fn is_available(wtype_found: bool, uinput_writable: bool) -> (r: bool)
    ensures
        r == (wtype_found || uinput_writable),
{
    wtype_found || uinput_writable
}

/// What to do where no way to send the accelerator is usable.
pub open spec fn remedy() -> Seq<char> {
    "Auto-paste needs a way to synthesise Ctrl+V. Install `wtype` (pacman -S wtype), or grant access to /dev/uinput by adding your user to the `input` group and installing the udev rule shipped in packaging/arch/99-voicebox-uinput.rules."@
}

/// What to do where no way to send the accelerator is usable.
pub fn unavailable_reason() -> (r: String)
    ensures
        r@ == remedy(),
        r@
            == "Auto-paste needs a way to synthesise Ctrl+V. Install `wtype` (pacman -S wtype), or grant access to /dev/uinput by adding your user to the `input` group and installing the udev rule shipped in packaging/arch/99-voicebox-uinput.rules."@,
{
    "Auto-paste needs a way to synthesise Ctrl+V. Install `wtype` (pacman -S wtype), or grant access to /dev/uinput by adding your user to the `input` group and installing the udev rule shipped in packaging/arch/99-voicebox-uinput.rules.".to_string()
}

// ------------------------------------------------------------------
// wtype
// ------------------------------------------------------------------
/// The arguments that make `wtype` send the accelerator: `-M` presses a
/// modifier, `-m` releases it, `-k` taps a key.
pub open spec fn wtype_arguments(accelerator: Accelerator) -> Seq<Seq<char>> {
    match accelerator {
        Accelerator::Standard => seq!["-M"@, "ctrl"@, "-k"@, "v"@, "-m"@, "ctrl"@],
        Accelerator::Terminal => seq![
            "-M"@,
            "ctrl"@,
            "-M"@,
            "shift"@,
            "-k"@,
            "v"@,
            "-m"@,
            "shift"@,
            "-m"@,
            "ctrl"@,
        ],
    }
}

/// The arguments that make `wtype` send the accelerator.
pub fn wtype_args(accelerator: Accelerator) -> (args: Vec<String>)
    ensures
        views(args@) == wtype_arguments(accelerator),
        accelerator == Accelerator::Standard ==> views(args@) == seq![
            "-M"@,
            "ctrl"@,
            "-k"@,
            "v"@,
            "-m"@,
            "ctrl"@,
        ],
        accelerator == Accelerator::Terminal ==> views(args@) == seq![
            "-M"@,
            "ctrl"@,
            "-M"@,
            "shift"@,
            "-k"@,
            "v"@,
            "-m"@,
            "shift"@,
            "-m"@,
            "ctrl"@,
        ],
{
    let mut args = vec!["-M".to_string(), "ctrl".to_string()];
    if accelerator == Accelerator::Terminal {
        args.push("-M".to_string());
        args.push("shift".to_string());
    }
    args.push("-k".to_string());
    args.push("v".to_string());
    if accelerator == Accelerator::Terminal {
        args.push("-m".to_string());
        args.push("shift".to_string());
    }
    args.push("-m".to_string());
    args.push("ctrl".to_string());
    assert(views(args@) =~= wtype_arguments(accelerator));
    args
}

/// How a run of `wtype` went.
#[derive(Debug)]
pub enum WtypeRun {
    /// It could not be started; the text is that of the error.
    NotRun(String),
    Exited { success: bool, status: String, stderr: String },
}

/// Why `wtype` did not send the accelerator; `None` where it did.
pub open spec fn wtype_failure(run: WtypeRun) -> Option<Seq<char>> {
    match run {
        WtypeRun::NotRun(error) => Some("could not run wtype: "@ + error@),
        WtypeRun::Exited { success, status, stderr } => if success {
            None
        } else {
            Some("wtype exited with "@ + status@ + ": "@ + trimmed(stderr@))
        },
    }
}

/// Whether `wtype` sent the accelerator.
pub fn send_via_wtype(run: &WtypeRun) -> (r: Result<(), String>)
    ensures
        match r {
            Ok(_) => wtype_failure(*run) is None,
            Err(text) => wtype_failure(*run) == Some(text@),
        },
        match *run {
            WtypeRun::NotRun(error) => r matches Err(text) && text@ == "could not run wtype: "@
                + error@,
            WtypeRun::Exited { success, status, stderr } => match r {
                Ok(_) => success,
                Err(text) => !success && text@ == "wtype exited with "@ + status@ + ": "@
                    + trimmed(stderr@),
            },
        },
{
    match run {
        WtypeRun::NotRun(error) => {
            let mut text = "could not run wtype: ".to_string();
            text.append(error.as_str());
            Err(text)
        },
        WtypeRun::Exited { success, status, stderr } => {
            if *success {
                Ok(())
            } else {
                let mut text = concat3("wtype exited with ", status.as_str(), ": ");
                text.append(trim(stderr.as_str()).as_str());
                Err(text)
            }
        },
    }
}

// ------------------------------------------------------------------
// Sending
// ------------------------------------------------------------------
/// What came of one way to send the accelerator.
#[derive(Debug)]
pub enum Attempt {
    Untried,
    Sent,
    Failed(String),
}

/// The next step of a paste.
#[derive(Debug)]
pub enum PasteStep {
    /// Run `wtype` with these arguments.
    Wtype(Vec<String>),
    /// Send these keystrokes from the virtual keyboard.
    Uinput(Keystrokes),
    /// The accelerator was sent.
    Sent,
    /// No way was left.
    Failed(String),
}

/// Why no way was left, given what went wrong with each that was tried.
pub open spec fn paste_error(wtype: Option<Seq<char>>, uinput: Seq<char>) -> Seq<char> {
    let tried = match wtype {
        Some(error) => "wtype: "@ + error + "; uinput: "@ + uinput,
        None => "uinput: "@ + uinput,
    };
    tried + ". "@ + remedy()
}

/// The next step of a paste: `wtype` where it is installed, the virtual
/// keyboard where it is not or has failed.
pub fn send_paste(
    accelerator: Accelerator,
    wtype_found: bool,
    wtype: &Attempt,
    uinput: &Attempt,
) -> (r: PasteStep)
    ensures
        match (wtype_found, *wtype, *uinput) {
            (true, Attempt::Untried, _) => r matches PasteStep::Wtype(args) && views(
                args@,
            ) == wtype_arguments(accelerator),
            (true, Attempt::Sent, _) => r is Sent,
            (_, _, Attempt::Untried) => r matches PasteStep::Uinput(keys) && {
                &&& keys.well_formed()
                &&& keys.accelerator() == accelerator
                &&& keys.sent() == 0
                &&& keys.failure() == None::<Seq<char>>
            },
            (_, _, Attempt::Sent) => r is Sent,
            (true, Attempt::Failed(w), Attempt::Failed(u)) => r matches PasteStep::Failed(text)
                && text@ == paste_error(Some(w@), u@),
            (false, _, Attempt::Failed(u)) => r matches PasteStep::Failed(text) && text@
                == paste_error(None, u@),
        },
        r matches PasteStep::Failed(text) ==> match (wtype_found, *wtype, *uinput) {
            (true, Attempt::Failed(w), Attempt::Failed(u)) => text@ == "wtype: "@ + w@
                + "; uinput: "@ + u@ + ". "@ + remedy(),
            (false, _, Attempt::Failed(u)) => text@ == "uinput: "@ + u@ + ". "@ + remedy(),
            _ => false,
        },
{
    let mut text = String::new();
    if wtype_found {
        match wtype {
            Attempt::Untried => {
                return PasteStep::Wtype(wtype_args(accelerator));
            },
            Attempt::Sent => {
                return PasteStep::Sent;
            },
            Attempt::Failed(error) => {
                text = concat3("wtype: ", error.as_str(), "; uinput: ");
            },
        }
    } else {
        text = "uinput: ".to_string();
    }
    match uinput {
        Attempt::Untried => PasteStep::Uinput(Keystrokes::new(accelerator)),
        Attempt::Sent => PasteStep::Sent,
        Attempt::Failed(error) => {
            text.append(error.as_str());
            text.append(". ");
            text.append(unavailable_reason().as_str());
            PasteStep::Failed(text)
        },
    }
}

} // verus!
