//! The permission gate of the auto-paste pipeline.
//!
//! macOS has a switch in its settings. Windows has none and needs none. On
//! Linux the capability itself may be missing.
use crate::linux::auto_paste_obstacle;
use vstd::prelude::*;

verus! {

/// The platform the application runs on.
#[derive(Debug, Clone, Copy, PartialEq, Eq, Structural)]
pub enum Platform {
    MacOs,
    Windows,
    Linux,
    Other,
}

/// Whether keystrokes may be sent. `listed` says whether macOS lists the
/// process under Accessibility, and `capability` whether auto-paste can run on
/// Linux.
pub fn is_trusted(platform: Platform, listed: bool, capability: &Result<(), String>) -> (r: bool)
    ensures
        r == (match platform {
            Platform::MacOs => listed,
            Platform::Windows => true,
            Platform::Linux => *capability is Ok,
            Platform::Other => false,
        }),
{
    match platform {
        Platform::MacOs => listed,
        Platform::Windows => true,
        Platform::Linux => capability.is_ok(),
        Platform::Other => false,
    }
}

/// What the user is told where keystrokes may not be sent.
pub open spec fn hint(platform: Platform, capability: Result<(), String>) -> Seq<char> {
    match (platform, capability) {
        (Platform::Linux, Ok(_)) => "Auto-paste is available."@,
        (Platform::Linux, Err(text)) => text@,
        _ =>
            "Accessibility permission required for auto-paste. Open System Settings → Privacy & Security → Accessibility and enable Voicebox."@,
    }
}

/// What the user is told where keystrokes may not be sent. Only on Linux does
/// it depend on what is missing.
pub fn permission_hint(platform: Platform, capability: &Result<(), String>) -> (r: String)
    ensures
        r@ == hint(platform, *capability),
        match *capability {
            Ok(_) => platform == Platform::Linux ==> r@ == "Auto-paste is available."@,
            Err(text) => platform == Platform::Linux ==> r@ == text@,
        },
        platform != Platform::Linux ==> r@
            == "Accessibility permission required for auto-paste. Open System Settings → Privacy & Security → Accessibility and enable Voicebox."@,
{
    match platform {
        Platform::Linux => match capability {
            Ok(_) => "Auto-paste is available.".to_string(),
            Err(text) => text.clone(),
        },
        _ =>
            "Accessibility permission required for auto-paste. Open System Settings → Privacy & Security → Accessibility and enable Voicebox.".to_string(),
    }
}

/// On Linux, a refusal comes with the very obstacle that stands in the way.
pub proof fn law_refusal_names_the_obstacle(
    clipboard: bool,
    keystroke: bool,
    capability: Result<(), String>,
)
    requires
        match capability {
            Ok(_) => auto_paste_obstacle(clipboard, keystroke) is None,
            Err(text) => auto_paste_obstacle(clipboard, keystroke) == Some(text@),
        },
    ensures
        capability is Ok <==> clipboard && keystroke,
        capability is Err ==> auto_paste_obstacle(clipboard, keystroke) == Some(
            hint(Platform::Linux, capability),
        ),
{
}

} // verus!
