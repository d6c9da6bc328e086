//! Linux/Wayland backends of the auto-paste pipeline.
//!
//! Reading the focused window, raising a window, owning the clipboard and
//! sending a keystroke are all privileges of the compositor. Each is built from
//! what the compositor does offer. Only the first two need Hyprland; elsewhere
//! the transcript goes to whatever has the focus.
pub mod clipboard;
pub mod clipboard_laws;
pub mod hyprland;
pub mod hyprland_laws;
pub mod lua;
pub mod paste;
pub mod paste_laws;
pub mod virtual_keyboard;

use crate::linux::paste::remedy;
use crate::linux::paste::unavailable_reason;
use crate::text::ascii_lower;
use crate::text::same;
use crate::text::to_ascii_lowercase;
use vstd::prelude::*;

verus! {

/// Whether the session is a Wayland one: `WAYLAND_DISPLAY` is set, or
/// `XDG_SESSION_TYPE` says so in whatever case.
pub open spec fn on_wayland(display_set: bool, session_type: Option<Seq<char>>) -> bool {
    display_set || (session_type matches Some(t) && ascii_lower(t) == "wayland"@)
}

/// Whether the session is a Wayland one, given whether `WAYLAND_DISPLAY` is set
/// and what `XDG_SESSION_TYPE` says.
pub fn is_wayland(display_set: bool, session_type: &Option<String>) -> (r: bool)
    ensures
        r == on_wayland(
            display_set,
            match *session_type {
                Some(t) => Some(t@),
                None => None,
            },
        ),
        r <==> display_set || (*session_type matches Some(t) && ascii_lower(t@) == "wayland"@),
{
    if display_set {
        return true;
    }
    match session_type {
        Some(t) => same(to_ascii_lowercase(t.as_str()).as_str(), "wayland"),
        None => false,
    }
}

/// Whether `WEBKIT_DISABLE_DMABUF_RENDERER` is to be set before the renderer
/// starts: on the NVIDIA driver under Wayland its window can stay blank.
///
/// `renderer_set` says whether that variable has a value already, which then
/// stands, and `dmabuf` what `VOICEBOX_WEBKIT_DMABUF` says: `1` keeps the
/// renderer on.
pub fn apply_webkit_workarounds(
    renderer_set: bool,
    dmabuf: &Option<String>,
    wayland: bool,
    nvidia: bool,
) -> (r: bool)
    ensures
        r == (!renderer_set && !(*dmabuf matches Some(value) && value@ == "1"@) && wayland
            && nvidia),
{
    if renderer_set {
        return false;
    }
    if let Some(value) = dmabuf {
        if same(value.as_str(), "1") {
            return false;
        }
    }
    wayland && nvidia
}

/// Why auto-paste cannot run; `None` where it can.
pub open spec fn auto_paste_obstacle(clipboard: bool, keystroke: bool) -> Option<Seq<char>> {
    if clipboard && keystroke {
        None
    } else if keystroke {
        Some(
            "Auto-paste needs clipboard access, which requires the compositor to support the wlr-data-control or ext-data-control protocol. Hyprland, Sway and other wlroots compositors do; GNOME does not."@,
        )
    } else if clipboard {
        Some(remedy())
    } else {
        Some(
            "Auto-paste is unavailable: this compositor exposes no clipboard data-control protocol, and no keystroke injection method is usable. "@
                + remedy(),
        )
    }
}

/// Whether auto-paste can run, given whether the clipboard can be reached and
/// whether a keystroke can be sent. Where it cannot, the text names the link
/// that is missing.
pub fn auto_paste_capability(clipboard: bool, keystroke: bool) -> (r: Result<(), String>)
    ensures
        match r {
            Ok(_) => auto_paste_obstacle(clipboard, keystroke) is None,
            Err(text) => auto_paste_obstacle(clipboard, keystroke) == Some(text@),
        },
        r is Ok <==> clipboard && keystroke,
        !clipboard && keystroke ==> r->Err_0@
            == "Auto-paste needs clipboard access, which requires the compositor to support the wlr-data-control or ext-data-control protocol. Hyprland, Sway and other wlroots compositors do; GNOME does not."@,
        clipboard && !keystroke ==> r->Err_0@ == remedy(),
        !clipboard && !keystroke ==> r->Err_0@
            == "Auto-paste is unavailable: this compositor exposes no clipboard data-control protocol, and no keystroke injection method is usable. "@
            + remedy(),
{
    if clipboard && keystroke {
        Ok(())
    } else if keystroke {
        Err(
            "Auto-paste needs clipboard access, which requires the compositor to support the wlr-data-control or ext-data-control protocol. Hyprland, Sway and other wlroots compositors do; GNOME does not.".to_string(),
        )
    } else if clipboard {
        Err(unavailable_reason())
    } else {
        let mut text =
            "Auto-paste is unavailable: this compositor exposes no clipboard data-control protocol, and no keystroke injection method is usable. ".to_string();
        text.append(unavailable_reason().as_str());
        Err(text)
    }
}

/// What says that the session is a Wayland one counts in whatever case, and
/// nothing else does.
pub proof fn law_session_type_counts_in_any_case(one: Seq<char>, other: Seq<char>)
    ensures
        ascii_lower(one) == ascii_lower(other) ==> on_wayland(false, Some(one)) == on_wayland(
            false,
            Some(other),
        ),
        on_wayland(false, Some(one)) <==> ascii_lower(one) == "wayland"@,
        !on_wayland(false, None),
        on_wayland(true, None) && on_wayland(true, Some(one)),
{
}

/// Auto-paste runs exactly when both of its links are there.
pub proof fn law_auto_paste_needs_both_links(clipboard: bool, keystroke: bool)
    ensures
        auto_paste_obstacle(clipboard, keystroke) is None <==> clipboard && keystroke,
{
}

} // verus!
