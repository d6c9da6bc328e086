use voicebox::linux::hyprland::active_window;
use voicebox::linux::hyprland::apply_overlay_rules;
use voicebox::linux::hyprland::dialect;
use voicebox::linux::hyprland::dialect_probe;
use voicebox::linux::hyprland::focus_address;
use voicebox::linux::hyprland::focused_monitor;
use voicebox::linux::hyprland::hyprctl;
use voicebox::linux::hyprland::is_active;
use voicebox::linux::hyprland::is_window_address;
use voicebox::linux::hyprland::malformed_address;
use voicebox::linux::hyprland::overlay_result;
use voicebox::linux::hyprland::request;
use voicebox::linux::hyprland::socket_path;
use voicebox::linux::hyprland::ActiveWindow;
use voicebox::linux::hyprland::Dialect;
use voicebox::linux::hyprland::DialectCell;
use voicebox::linux::hyprland::Exchange;
use voicebox::linux::hyprland::Monitor;
use voicebox::linux::hyprland::Query;
use voicebox::linux::hyprland::Run;
use voicebox::linux::lua::lua_string;

fn text(s: &str) -> String {
    s.to_string()
}

fn texts(parts: &[&str]) -> Vec<String> {
    parts.iter().map(|s| s.to_string()).collect()
}

fn monitor(x: i32, focused: bool) -> Monitor {
    Monitor { x, y: 0, width: 1920, height: 1080, scale: 1.0f32.to_bits(), focused }
}

fn window() -> ActiveWindow {
    ActiveWindow {
        address: text("0x5647a06fce20"),
        pid: 4711,
        class: text("kitty"),
        title: text("shell"),
    }
}

// ------------------------------------------------------------------
// Lua literals
// ------------------------------------------------------------------

#[test]
fn lua_string_leaves_regex_escapes_intact() {
    assert_eq!(lua_string(r"^(foo\.bar)$"), r"[[^(foo\.bar)$]]");
}

#[test]
fn lua_string_grows_delimiter_past_collisions() {
    assert_eq!(lua_string("a]]b"), "[=[a]]b]=]");
    assert_eq!(lua_string("a]]b]=]c"), "[==[a]]b]=]c]==]");
}

#[test]
fn lua_string_of_nothing() {
    assert_eq!(lua_string(""), "[[]]");
}

#[test]
fn lua_string_takes_the_shortest_free_delimiter() {
    assert_eq!(lua_string("a]=]b"), "[[a]=]b]]");
    assert_eq!(lua_string("]]]==]"), "[=[]]]==]]=]");
}

#[test]
fn lua_string_keeps_clear_of_its_own_end() {
    assert_eq!(lua_string("[abc]"), "[=[[abc]]=]");
    assert_eq!(lua_string("]]b]="), "[==[]]b]=]==]");
    assert_eq!(lua_string("a]="), "[[a]=]]");
}

/// What Lua reads from a long-bracket literal without newlines.
fn lua_reads(literal: &str) -> Option<String> {
    let rest = literal.strip_prefix('[')?;
    let level = rest.len() - rest.trim_start_matches('=').len();
    let body = rest[level..].strip_prefix('[')?;
    let close = format!("]{}]", "=".repeat(level));
    let end = body.find(&close)?;
    if end + close.len() == body.len() {
        Some(body[..end].to_string())
    } else {
        None
    }
}

#[test]
fn lua_reads_back_what_was_put_in() {
    for value in ["", "plain", r"^(foo\.bar)$", "a]]b", "a]]b]=]c", "[[x", "]=", "größe]x", "a]", "[abc]", "]]b]=", "]", "]]", "]=]"] {
        assert_eq!(lua_reads(&lua_string(value)).as_deref(), Some(value));
    }
}

// ------------------------------------------------------------------
// Session
// ------------------------------------------------------------------

#[test]
fn socket_lies_below_the_runtime_directory() {
    assert_eq!(
        socket_path(&Some(text("abc_123")), &Some(text("/run/user/1000"))),
        Some(text("/run/user/1000/hypr/abc_123/.socket.sock"))
    );
    assert_eq!(
        socket_path(&Some(text("abc")), &Some(text("/run/user/1000/"))),
        Some(text("/run/user/1000/hypr/abc/.socket.sock"))
    );
}

#[test]
fn socket_path_joins_like_the_standard_library() {
    let cases = [
        ("", ""),
        ("/tmp", "/elsewhere"),
        ("relative", "sig/"),
        ("/", "x"),
    ];
    for (runtime, signature) in cases {
        let expected = std::path::PathBuf::from(runtime)
            .join("hypr")
            .join(signature)
            .join(".socket.sock");
        assert_eq!(
            socket_path(&Some(text(signature)), &Some(text(runtime))),
            Some(text(expected.to_str().unwrap()))
        );
    }
}

#[test]
fn socket_needs_both_variables() {
    assert_eq!(socket_path(&None, &Some(text("/run/user/1000"))), None);
    assert_eq!(socket_path(&Some(text("abc")), &None), None);
}

#[test]
fn session_is_active_only_with_a_socket() {
    assert!(is_active(&Some(text("/s")), true));
    assert!(!is_active(&Some(text("/s")), false));
    assert!(!is_active(&None, true));
}

// ------------------------------------------------------------------
// Queries
// ------------------------------------------------------------------

#[test]
fn queries_ask_for_json() {
    assert_eq!(Query::Monitors.payload(), "j/monitors");
    assert_eq!(Query::ActiveWindow.payload(), "j/activewindow");
}

#[test]
fn each_failed_exchange_says_where() {
    assert_eq!(request(Exchange::NoSession), Err(text("not running under Hyprland")));
    assert_eq!(
        request(Exchange::ConnectFailed(text("gone"))),
        Err(text("Hyprland IPC connect failed: gone"))
    );
    assert_eq!(
        request(Exchange::TimeoutSetupFailed(text("gone"))),
        Err(text("Hyprland IPC timeout setup failed: gone"))
    );
    assert_eq!(
        request(Exchange::WriteFailed(text("gone"))),
        Err(text("Hyprland IPC write failed: gone"))
    );
    assert_eq!(
        request(Exchange::ReadFailed(text("gone"))),
        Err(text("Hyprland IPC read failed: gone"))
    );
    assert_eq!(request(Exchange::Reply(text("{}"))), Ok(text("{}")));
}

#[test]
fn first_focused_monitor_wins() {
    let monitors = vec![monitor(0, false), monitor(1, true), monitor(2, true)];
    assert_eq!(focused_monitor(&Ok(monitors)).unwrap().x, 1);
}

#[test]
fn without_focus_the_first_monitor_is_taken() {
    let monitors = vec![monitor(7, false), monitor(8, false)];
    assert_eq!(focused_monitor(&Ok(monitors)).unwrap().x, 7);
}

#[test]
fn no_monitor_is_an_error() {
    assert_eq!(
        focused_monitor(&Ok(vec![])).unwrap_err(),
        "Hyprland reported no monitors"
    );
    assert_eq!(
        focused_monitor(&Err(text("EOF"))).unwrap_err(),
        "Hyprland IPC: could not parse `monitors` reply: EOF"
    );
}

#[test]
fn only_a_scale_above_zero_divides() {
    let with = |scale: f32| Monitor { scale: scale.to_bits(), ..monitor(0, true) };
    assert_eq!(f32::from_bits(with(1.5).divisor()), 1.5);
    assert_eq!(f32::from_bits(with(f32::MIN_POSITIVE).divisor()), f32::MIN_POSITIVE);
    assert_eq!(f32::from_bits(with(f32::INFINITY).divisor()), f32::INFINITY);
    for bogus in [0.0f32, -0.0, -1.5, f32::NAN, -f32::NAN, f32::NEG_INFINITY] {
        assert_eq!(f32::from_bits(with(bogus).divisor()), 1.0);
    }
}

#[test]
fn nothing_focused_is_no_window() {
    for raw in ["{}", " {}\n", "", " \n\t"] {
        assert!(matches!(active_window(raw, Err(text("missing field"))), Ok(None)));
    }
}

#[test]
fn focused_window_is_handed_on() {
    let raw = "{\"address\":\"0x5647a06fce20\"}";
    let found = active_window(raw, Ok(window().clone())).unwrap().unwrap();
    assert_eq!(found.address, "0x5647a06fce20");
    assert_eq!(found.pid, 4711);
    assert_eq!(found.class, "kitty");
    assert_eq!(found.title, "shell");
    assert_eq!(
        active_window("{", Err(text("EOF"))).unwrap_err(),
        "Hyprland IPC: could not parse `activewindow` reply: EOF"
    );
}

// ------------------------------------------------------------------
// Changes
// ------------------------------------------------------------------

#[test]
fn dialect_is_lua_only_where_the_entry_point_exists() {
    assert_eq!(dialect_probe(), texts(&["repl", "return type(hl.window_rule)"]));
    assert_eq!(dialect(&Some(text("function\n"))), Dialect::Lua);
    assert_eq!(dialect(&Some(text("nil"))), Dialect::Legacy);
    assert_eq!(dialect(&Some(text("unknown request"))), Dialect::Legacy);
    assert_eq!(dialect(&None), Dialect::Legacy);
}

fn exited(success: bool, stdout: &str, stderr: &str) -> Run {
    Run::Exited { success, stdout: text(stdout), stderr: text(stderr) }
}

#[test]
fn hyprctl_answers_with_trimmed_output() {
    let args = texts(&["dispatch", "focuswindow", "address:0x1"]);
    assert_eq!(hyprctl(&args, &exited(true, " ok\n", "noise")), Ok(text("ok")));
    assert_eq!(hyprctl(&args, &exited(true, "", "")), Ok(text("")));
}

#[test]
fn hyprctl_exit_status_is_not_enough() {
    let args = texts(&["keyword", "x"]);
    assert_eq!(
        hyprctl(&args, &exited(true, "error: bad\n", "")),
        Err(text("hyprctl keyword x rejected: error: bad"))
    );
    assert_eq!(
        hyprctl(&args, &exited(true, "unknown request\n", "")),
        Err(text("hyprctl keyword x rejected: unknown request"))
    );
    assert_eq!(hyprctl(&args, &exited(true, "an error: bad", "")), Ok(text("an error: bad")));
}

#[test]
fn hyprctl_failure_falls_back_to_stderr() {
    let args = texts(&["keyword", "x"]);
    assert_eq!(
        hyprctl(&args, &exited(false, "", " no socket \n")),
        Err(text("hyprctl keyword x rejected: no socket"))
    );
    assert_eq!(
        hyprctl(&args, &exited(false, "said", "no socket")),
        Err(text("hyprctl keyword x rejected: said"))
    );
    assert_eq!(
        hyprctl(&args, &Run::NotSpawned(text("not found"))),
        Err(text("hyprctl keyword x failed to spawn: not found"))
    );
}

#[test]
fn first_dialect_answer_stands() {
    let mut cell = DialectCell::new();
    assert_eq!(cell.known(), None);
    assert_eq!(cell.settle(&Some(text("function"))), Dialect::Lua);
    assert_eq!(cell.known(), Some(Dialect::Lua));
    assert_eq!(cell.settle(&None), Dialect::Lua);
    assert_eq!(cell.settle(&Some(text("nil"))), Dialect::Lua);
    let mut older = DialectCell::new();
    assert_eq!(older.settle(&None), Dialect::Legacy);
    assert_eq!(older.settle(&Some(text("function"))), Dialect::Legacy);
}

#[test]
fn focus_speaks_the_dialect() {
    let request = focus_address("0x5647a06fce20").unwrap();
    assert_eq!(
        request.args(Dialect::Lua),
        texts(&["repl", "hl.dispatch(hl.dsp.focus({ window = [[address:0x5647a06fce20]] }))"])
    );
    assert_eq!(
        request.args(Dialect::Legacy),
        texts(&["dispatch", "focuswindow", "address:0x5647a06fce20"])
    );
}

#[test]
fn malformed_addresses_are_refused() {
    for bad in ["", "0", "5647", "0X12", "0x12]]", "0x12 ", "0xg", " 0x1", "ö"] {
        assert!(!is_window_address(bad));
        assert_eq!(
            focus_address(bad).unwrap_err(),
            format!("refusing to dispatch on malformed address {bad:?}")
        );
    }
    assert_eq!(
        focus_address("0x\"\n").unwrap_err(),
        "refusing to dispatch on malformed address \"0x\\\"\\n\""
    );
    assert_eq!(
        malformed_address("\"q\""),
        "refusing to dispatch on malformed address \"q\""
    );
}

#[test]
fn bare_prefix_is_an_address() {
    assert!(is_window_address("0x"));
    assert!(is_window_address("0xABCdef0189"));
}

#[test]
fn overlay_is_one_lua_rule() {
    assert_eq!(
        apply_overlay_rules(Dialect::Lua, r"^(Voicebox Dictate)$", -40, 25),
        vec![texts(&[
            "repl",
            "hl.window_rule({ match = { title = [[^(Voicebox Dictate)$]] }, \
             float = true, pin = true, no_focus = true, border_size = 0, \
             no_shadow = true, no_blur = true, no_anim = true, \
             move = { -40, 25 } })"
        ])]
    );
}

#[test]
fn overlay_is_eight_legacy_rules() {
    let requests = apply_overlay_rules(Dialect::Legacy, "^(Pill)$", 1280, i32::MIN);
    let values: Vec<String> = requests.iter().map(|r| r[2].clone()).collect();
    assert_eq!(
        values,
        texts(&[
            "float,title:^(Pill)$",
            "pin,title:^(Pill)$",
            "nofocus,title:^(Pill)$",
            "noborder,title:^(Pill)$",
            "noshadow,title:^(Pill)$",
            "noblur,title:^(Pill)$",
            "noanim,title:^(Pill)$",
            "move 1280 -2147483648,title:^(Pill)$",
        ])
    );
    for request in &requests {
        assert_eq!(request.len(), 3);
        assert_eq!(request[0], "keyword");
        assert_eq!(request[1], "windowrulev2");
    }
}

#[test]
fn overlay_failures_are_all_named() {
    assert_eq!(overlay_result(&vec![Ok(text("ok")), Ok(text(""))]), Ok(()));
    assert_eq!(overlay_result(&vec![]), Ok(()));
    assert_eq!(
        overlay_result(&vec![Err(text("one")), Ok(text("ok")), Err(text("two"))]),
        Err(text("one; two"))
    );
}
