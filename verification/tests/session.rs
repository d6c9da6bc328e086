use voicebox::accessibility::is_trusted;
use voicebox::accessibility::permission_hint;
use voicebox::accessibility::Platform;
use voicebox::linux::apply_webkit_workarounds;
use voicebox::linux::auto_paste_capability;
use voicebox::linux::is_wayland;
use voicebox::linux::paste::unavailable_reason;

fn text(s: &str) -> String {
    s.to_string()
}

const SETTINGS: &str = "Accessibility permission required for auto-paste. Open System Settings → \
     Privacy & Security → Accessibility and enable Voicebox.";

#[test]
fn wayland_by_display_or_session_type() {
    assert!(is_wayland(true, &None));
    assert!(is_wayland(true, &Some(text("x11"))));
    assert!(is_wayland(false, &Some(text("wayland"))));
    assert!(is_wayland(false, &Some(text("WayLand"))));
    assert!(!is_wayland(false, &Some(text("x11"))));
    assert!(!is_wayland(false, &Some(text("wayland "))));
    assert!(!is_wayland(false, &None));
}

#[test]
fn renderer_is_disabled_on_nvidia_under_wayland() {
    assert!(apply_webkit_workarounds(false, &None, true, true));
    assert!(!apply_webkit_workarounds(false, &None, true, false));
    assert!(!apply_webkit_workarounds(false, &None, false, true));
}

#[test]
fn explicit_renderer_setting_always_wins() {
    assert!(!apply_webkit_workarounds(true, &None, true, true));
    assert!(!apply_webkit_workarounds(true, &Some(text("0")), true, true));
}

#[test]
fn opting_back_in_keeps_the_renderer() {
    assert!(!apply_webkit_workarounds(false, &Some(text("1")), true, true));
    assert!(apply_webkit_workarounds(false, &Some(text("0")), true, true));
    assert!(apply_webkit_workarounds(false, &Some(text("")), true, true));
}

#[test]
fn auto_paste_names_the_missing_link() {
    assert_eq!(auto_paste_capability(true, true), Ok(()));
    assert_eq!(
        auto_paste_capability(false, true),
        Err(text(
            "Auto-paste needs clipboard access, which requires the \
             compositor to support the wlr-data-control or ext-data-control protocol. \
             Hyprland, Sway and other wlroots compositors do; GNOME does not."
        ))
    );
    assert_eq!(auto_paste_capability(true, false), Err(unavailable_reason()));
    assert_eq!(
        auto_paste_capability(false, false),
        Err(format!(
            "Auto-paste is unavailable: this compositor exposes no clipboard \
             data-control protocol, and no keystroke injection method is usable. {}",
            unavailable_reason()
        ))
    );
}

#[test]
fn trust_depends_on_the_platform() {
    let refused = Err(text("no clipboard"));
    assert!(is_trusted(Platform::MacOs, true, &refused));
    assert!(!is_trusted(Platform::MacOs, false, &Ok(())));
    assert!(is_trusted(Platform::Windows, false, &refused));
    assert!(is_trusted(Platform::Linux, false, &Ok(())));
    assert!(!is_trusted(Platform::Linux, true, &refused));
    assert!(!is_trusted(Platform::Other, true, &Ok(())));
}

#[test]
fn hint_explains_the_refusal() {
    let refused = auto_paste_capability(false, true);
    assert_eq!(
        Err(permission_hint(Platform::Linux, &refused)),
        auto_paste_capability(false, true)
    );
    assert_eq!(permission_hint(Platform::Linux, &Ok(())), "Auto-paste is available.");
    for platform in [Platform::MacOs, Platform::Windows, Platform::Other] {
        assert_eq!(permission_hint(platform, &refused), SETTINGS);
        assert_eq!(permission_hint(platform, &Ok(())), SETTINGS);
    }
}
