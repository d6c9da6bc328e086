//! Hyprland's private channel: who has focus, raising a window, and placing
//! the dictation pill.
//!
//! Queries go down the compositor's command socket; changes go through
//! `hyprctl`, whose syntax depends on the release.
use crate::linux::hyprland_laws::law_overlay_needs_every_rule;
use crate::linux::lua::lua_literal;
use crate::linux::lua::lua_string;
use crate::text::chars_of;
use crate::text::concat3;
use crate::text::decimal;
use crate::text::decimal_of;
use crate::text::join;
use crate::text::joined;
use crate::text::same;
use crate::text::starts_with;
use crate::text::trim;
use crate::text::trimmed;
use crate::text::views;
use vstd::prelude::*;

verus! {

/// How long a request may take, in milliseconds: a hung compositor must not
/// hold up dictation.
pub const IPC_TIMEOUT_MS: u64 = 500;

// ------------------------------------------------------------------
// Session detection
// ------------------------------------------------------------------
/// `part` below the directory `base`. An absolute path stands for itself.
pub open spec fn path_below(base: Seq<char>, part: Seq<char>) -> Seq<char> {
    if part.len() > 0 && part[0] == '/' {
        part
    } else if base.len() == 0 || base.last() == '/' {
        base + part
    } else {
        base + seq!['/'] + part
    }
}

/// Where the command socket of a session is.
pub open spec fn socket_of(signature: Seq<char>, runtime: Seq<char>) -> Seq<char> {
    path_below(path_below(path_below(runtime, "hypr"@), signature), ".socket.sock"@)
}

/// A name of something in a directory.
pub open spec fn is_plain_name(name: Seq<char>) -> bool {
    name.len() > 0 && name[0] != '/' && name.last() != '/'
}

/// The command socket of a session lies in the directory that bears its
/// signature, below the one of the compositor in the runtime directory.
pub proof fn law_socket_lies_below_the_runtime_directory(signature: Seq<char>, runtime: Seq<char>)
    requires
        is_plain_name(signature),
        runtime.len() > 0,
    ensures
        runtime.last() != '/' ==> socket_of(signature, runtime) == runtime + "/hypr/"@ + signature
            + "/.socket.sock"@,
        runtime.last() == '/' ==> socket_of(signature, runtime) == runtime + "hypr/"@ + signature
            + "/.socket.sock"@,
{
    reveal_strlit("hypr");
    reveal_strlit(".socket.sock");
    reveal_strlit("/.socket.sock");
    reveal_strlit("/hypr/");
    reveal_strlit("hypr/");
    let top = path_below(runtime, "hypr"@);
    assert(top.last() == "hypr"@.last());
    let directory = path_below(top, signature);
    assert(directory == top + seq!['/'] + signature);
    assert(directory.last() == signature.last());
    assert(socket_of(signature, runtime) == directory + seq!['/'] + ".socket.sock"@);
    assert(seq!['/'] + ".socket.sock"@ =~= "/.socket.sock"@);
    if runtime.last() == '/' {
        assert(top + seq!['/'] =~= runtime + "hypr/"@);
        assert(socket_of(signature, runtime) =~= runtime + "hypr/"@ + signature
            + "/.socket.sock"@);
    } else {
        assert(top + seq!['/'] =~= runtime + "/hypr/"@);
        assert(socket_of(signature, runtime) =~= runtime + "/hypr/"@ + signature
            + "/.socket.sock"@);
    }
}

/// A path below a directory begins with the directory and ends with what is below
/// it, with one slash between them; an absolute one has nothing to do with the
/// directory.
pub proof fn law_path_goes_below_its_directory(base: Seq<char>, part: Seq<char>)
    ensures
        part.len() > 0 && part[0] == '/' ==> path_below(base, part) == part,
        !(part.len() > 0 && part[0] == '/') && (base.len() == 0 || base.last() == '/')
            ==> path_below(base, part) == base + part,
        !(part.len() > 0 && part[0] == '/') && base.len() > 0 && base.last() != '/' ==> path_below(
            base,
            part,
        ) == base.push('/') + part,
{
    assert(base + seq!['/'] + part =~= base.push('/') + part);
}

fn below(base: &str, part: &str) -> (r: String)
    ensures
        r@ == path_below(base@, part@),
{
    let parts = chars_of(part);
    if parts.len() > 0 && parts[0] == '/' {
        return part.to_string();
    }
    let bases = chars_of(base);
    let mut r = base.to_string();
    if bases.len() > 0 && bases[bases.len() - 1] != '/' {
        r.push('/');
        assert(r@ =~= base@ + seq!['/']);
    }
    r.append(part);
    r
}

/// The path of the command socket, given the instance signature and the runtime
/// directory as far as the environment has them.
pub fn socket_path(signature: &Option<String>, runtime: &Option<String>) -> (r: Option<String>)
    ensures
        (match r {
            Some(path) => Some(path@),
            None => None,
        }) == (match (*signature, *runtime) {
            (Some(signature), Some(runtime)) => Some(socket_of(signature@, runtime@)),
            _ => None,
        }),
        r is Some <==> *signature is Some && *runtime is Some,
        (*signature matches Some(name) && *runtime matches Some(directory) && is_plain_name(name@)
            && directory@.len() > 0 && directory@.last() != '/') ==> r->0@ == runtime->0@
            + "/hypr/"@ + signature->0@ + "/.socket.sock"@,
{
    proof {
        if *signature is Some && *runtime is Some && is_plain_name(signature->0@)
            && runtime->0@.len() > 0 && runtime->0@.last() != '/' {
            law_socket_lies_below_the_runtime_directory(signature->0@, runtime->0@);
        }
    }
    match (signature, runtime) {
        (Some(signature), Some(runtime)) => {
            let directory = below(below(runtime.as_str(), "hypr").as_str(), signature.as_str());
            Some(below(directory.as_str(), ".socket.sock"))
        },
        _ => None,
    }
}

/// Whether there is a session to talk to: its socket is known, and exists.
pub fn is_active(socket: &Option<String>, exists: bool) -> (r: bool)
    ensures
        r == (*socket is Some && exists),
{
    socket.is_some() && exists
}

// ------------------------------------------------------------------
// Queries
// ------------------------------------------------------------------
/// What the compositor can be asked.
#[derive(Debug, Clone, Copy, PartialEq, Eq, Structural)]
pub enum Query {
    Monitors,
    ActiveWindow,
}

impl Query {
    pub open spec fn name(self) -> Seq<char> {
        match self {
            Query::Monitors => "monitors"@,
            Query::ActiveWindow => "activewindow"@,
        }
    }

    /// What is sent down the socket.
    pub fn payload(self) -> (r: String)
        ensures
            r@ == "j/"@ + self.name(),
            self == Query::Monitors ==> r@ == "j/"@ + "monitors"@,
            self == Query::ActiveWindow ==> r@ == "j/"@ + "activewindow"@,
    {
        let mut r = "j/".to_string();
        match self {
            Query::Monitors => r.append("monitors"),
            Query::ActiveWindow => r.append("activewindow"),
        }
        r
    }
}

/// How a request went. The texts are those of the errors.
#[derive(Debug)]
pub enum Exchange {
    NoSession,
    ConnectFailed(String),
    TimeoutSetupFailed(String),
    WriteFailed(String),
    ReadFailed(String),
    Reply(String),
}

/// The reply of a request, or why there is none.
pub open spec fn reply(exchange: Exchange) -> Result<Seq<char>, Seq<char>> {
    match exchange {
        Exchange::NoSession => Err("not running under Hyprland"@),
        Exchange::ConnectFailed(e) => Err("Hyprland IPC connect failed: "@ + e@),
        Exchange::TimeoutSetupFailed(e) => Err("Hyprland IPC timeout setup failed: "@ + e@),
        Exchange::WriteFailed(e) => Err("Hyprland IPC write failed: "@ + e@),
        Exchange::ReadFailed(e) => Err("Hyprland IPC read failed: "@ + e@),
        Exchange::Reply(text) => Ok(text@),
    }
}

fn prefixed(prefix: &str, text: &str) -> (r: String)
    ensures
        r@ == prefix@ + text@,
{
    let mut r = prefix.to_string();
    r.append(text);
    r
}

/// The reply of a request, or why there is none.
pub fn request(exchange: Exchange) -> (r: Result<String, String>)
    ensures
        reply(exchange) == (match r {
            Ok(text) => Ok(text@),
            Err(text) => Err(text@),
        }),
        match exchange {
            Exchange::Reply(answer) => r matches Ok(text) && text@ == answer@,
            Exchange::NoSession => r matches Err(text) && text@ == "not running under Hyprland"@,
            Exchange::ConnectFailed(e) => r matches Err(text) && text@
                == "Hyprland IPC connect failed: "@ + e@,
            Exchange::TimeoutSetupFailed(e) => r matches Err(text) && text@
                == "Hyprland IPC timeout setup failed: "@ + e@,
            Exchange::WriteFailed(e) => r matches Err(text) && text@
                == "Hyprland IPC write failed: "@ + e@,
            Exchange::ReadFailed(e) => r matches Err(text) && text@
                == "Hyprland IPC read failed: "@ + e@,
        },
{
    match exchange {
        Exchange::NoSession => Err("not running under Hyprland".to_string()),
        Exchange::ConnectFailed(e) => Err(prefixed("Hyprland IPC connect failed: ", e.as_str())),
        Exchange::TimeoutSetupFailed(e) => Err(
            prefixed("Hyprland IPC timeout setup failed: ", e.as_str()),
        ),
        Exchange::WriteFailed(e) => Err(prefixed("Hyprland IPC write failed: ", e.as_str())),
        Exchange::ReadFailed(e) => Err(prefixed("Hyprland IPC read failed: ", e.as_str())),
        Exchange::Reply(text) => Ok(text),
    }
}

/// Why a reply could not be used, given what the parser says.
pub open spec fn unparsed(query: Query, error: Seq<char>) -> Seq<char> {
    "Hyprland IPC: could not parse `"@ + query.name() + "` reply: "@ + error
}

fn unparsed_reply(query: Query, error: &str) -> (r: String)
    ensures
        r@ == unparsed(query, error@),
{
    let mut r = "Hyprland IPC: could not parse `".to_string();
    match query {
        Query::Monitors => r.append("monitors"),
        Query::ActiveWindow => r.append("activewindow"),
    }
    r.append("` reply: ");
    r.append(error);
    r
}

/// What the paste pipeline uses of a window.
#[derive(Debug, Clone)]
pub struct ActiveWindow {
    /// Hyprland's own handle of the window. One process can own many windows,
    /// so this is more precise than the process id.
    pub address: String,
    pub pid: i32,
    pub class: String,
    pub title: String,
}

/// A monitor of the layout.
#[derive(Debug, Clone, Copy)]
pub struct Monitor {
    /// Logical position of the top left corner.
    pub x: i32,
    pub y: i32,
    /// Size of the mode in physical pixels.
    pub width: i32,
    pub height: i32,
    /// The scale, as the bits of a single-precision number.
    pub scale: u32,
    pub focused: bool,
}

/// Single-precision one.
pub const ONE: u32 = 0x3f80_0000;

/// Single-precision infinity: the largest bits of a number above zero.
pub const INFINITY: u32 = 0x7f80_0000;

impl Monitor {
    /// The scale that the size is divided by: the monitor's own where it is
    /// above zero, and one where it is not.
    pub fn divisor(&self) -> (r: u32)
        ensures
            r == if 0 < self.scale <= INFINITY {
                self.scale
            } else {
                ONE
            },
            0 < self.scale <= 0x7f80_0000 ==> r == self.scale,
            self.scale == 0 || self.scale > 0x7f80_0000 ==> r == 0x3f80_0000,
    {
        if 0 < self.scale && self.scale <= INFINITY {
            self.scale
        } else {
            ONE
        }
    }
}

/// The monitor the user works on: the first focused one, else the first one.
pub open spec fn monitor_in_use(monitors: Seq<Monitor>) -> Option<Monitor> {
    if exists|i: int| 0 <= i < monitors.len() && #[trigger] monitors[i].focused {
        Some(first_focused(monitors))
    } else if monitors.len() > 0 {
        Some(monitors[0])
    } else {
        None
    }
}

/// The first focused monitor of those that hold one.
pub open spec fn first_focused(monitors: Seq<Monitor>) -> Monitor
    decreases monitors.len(),
{
    if monitors.len() <= 1 || monitors[0].focused {
        monitors[0]
    } else {
        first_focused(monitors.skip(1))
    }
}

/// The monitor the user works on, given the monitors of the reply or what the
/// parser says of it.
pub fn focused_monitor(parsed: &Result<Vec<Monitor>, String>) -> (r: Result<Monitor, String>)
    ensures
        (match r {
            Ok(monitor) => Ok(monitor),
            Err(text) => Err(text@),
        }) == (match *parsed {
            Err(error) => Err(unparsed(Query::Monitors, error@)),
            Ok(monitors) => match monitor_in_use(monitors@) {
                Some(monitor) => Ok(monitor),
                None => Err("Hyprland reported no monitors"@),
            },
        }),
        match *parsed {
            Err(error) => r matches Err(text) && text@ == "Hyprland IPC: could not parse `"@
                + "monitors"@ + "` reply: "@ + error@,
            Ok(monitors) => {
                &&& monitors@.len() == 0 ==> (r matches Err(text) && text@
                    == "Hyprland reported no monitors"@)
                &&& forall|focused: int|
                    0 <= focused < monitors@.len() && (#[trigger] monitors@[focused]).focused && (
                    forall|j: int| 0 <= j < focused ==> !(#[trigger] monitors@[j]).focused)
                        ==> r == Ok::<Monitor, String>(monitors@[focused])
                &&& monitors@.len() > 0 && (forall|j: int|
                    0 <= j < monitors@.len() ==> !(#[trigger] monitors@[j]).focused) ==> r == Ok::<
                    Monitor,
                    String,
                >(monitors@[0])
            },
        },
{
    let monitors = match parsed {
        Ok(monitors) => monitors,
        Err(error) => {
            return Err(unparsed_reply(Query::Monitors, error.as_str()));
        },
    };
    assert(monitors@.skip(0) =~= monitors@);
    for i in 0..monitors.len()
        invariant
            *parsed == Ok::<Vec<Monitor>, String>(*monitors),
            forall|j: int| 0 <= j < i ==> !(#[trigger] monitors@[j]).focused,
            i < monitors@.len() ==> first_focused(monitors@.skip(i as int)) == first_focused(
                monitors@,
            ),
    {
        if monitors[i].focused {
            assert(monitors@[i as int].focused);
            assert(monitors@.skip(i as int)[0] == monitors@[i as int]);
            return Ok(monitors[i]);
        }
        assert(monitors@.skip(i as int).skip(1) =~= monitors@.skip(i + 1));
    }
    if monitors.len() > 0 {
        Ok(monitors[0])
    } else {
        Err("Hyprland reported no monitors".to_string())
    }
}

/// Whether a reply about the active window says that there is none.
pub open spec fn no_window(raw: Seq<char>) -> bool {
    trimmed(raw) == "{}"@ || trimmed(raw).len() == 0
}

/// The window that had the keyboard focus, given the reply and what the parser
/// makes of it. That nothing is focused is no error.
pub fn active_window(raw: &str, parsed: Result<ActiveWindow, String>) -> (r: Result<
    Option<ActiveWindow>,
    String,
>)
    ensures
        (match r {
            Ok(window) => Ok(window),
            Err(text) => Err(text@),
        }) == (if no_window(raw@) {
            Ok(None)
        } else {
            match parsed {
                Ok(window) => Ok(Some(window)),
                Err(error) => Err(unparsed(Query::ActiveWindow, error@)),
            }
        }),
        trimmed(raw@) == "{}"@ || trimmed(raw@).len() == 0 ==> r == Ok::<
            Option<ActiveWindow>,
            String,
        >(None),
        trimmed(raw@) != "{}"@ && trimmed(raw@).len() > 0 ==> match parsed {
            Ok(window) => r == Ok::<Option<ActiveWindow>, String>(Some(window)),
            Err(error) => r matches Err(text) && text@ == "Hyprland IPC: could not parse `"@
                + "activewindow"@ + "` reply: "@ + error@,
        },
{
    let text = trim(raw);
    if same(text.as_str(), "{}") || chars_of(text.as_str()).len() == 0 {
        return Ok(None);
    }
    match parsed {
        Ok(window) => Ok(Some(window)),
        Err(error) => Err(unparsed_reply(Query::ActiveWindow, error.as_str())),
    }
}

// ------------------------------------------------------------------
// Changes
// ------------------------------------------------------------------
/// The language `hyprctl` takes its requests in.
#[derive(Debug, Clone, Copy, PartialEq, Eq, Structural)]
pub enum Dialect {
    /// Configuration and dispatch run as Lua.
    Lua,
    /// Keywords and dispatchers by name.
    Legacy,
}

/// The request that tells the dialects apart. It asks for the very entry point
/// that is needed rather than for a version number.
pub fn dialect_probe() -> (args: Vec<String>)
    ensures
        views(args@) == seq!["repl"@, "return type(hl.window_rule)"@],
{
    let args = vec!["repl".to_string(), "return type(hl.window_rule)".to_string()];
    assert(views(args@) =~= seq!["repl"@, "return type(hl.window_rule)"@]);
    args
}

/// The dialect, given what the probe printed; `None` where it did not run. A
/// probe that says anything else than that the entry point is there counts for
/// the older dialect.
pub open spec fn dialect_of(printed: Option<Seq<char>>) -> Dialect {
    if printed matches Some(text) && trimmed(text) == "function"@ {
        Dialect::Lua
    } else {
        Dialect::Legacy
    }
}

/// The dialect, given what the probe printed; `None` where it did not run.
pub fn dialect(printed: &Option<String>) -> (r: Dialect)
    ensures
        r == dialect_of(
            match *printed {
                Some(text) => Some(text@),
                None => None,
            },
        ),
        r == Dialect::Lua <==> (*printed matches Some(text) && trimmed(text@) == "function"@),
{
    match printed {
        Some(text) => {
            if same(trim(text.as_str()).as_str(), "function") {
                Dialect::Lua
            } else {
                Dialect::Legacy
            }
        },
        None => Dialect::Legacy,
    }
}

/// The dialect of this process, once it has been probed for.
#[derive(Debug)]
pub struct DialectCell {
    known: Option<Dialect>,
}

impl DialectCell {
    /// The dialect, where it is known.
    pub closed spec fn dialect(self) -> Option<Dialect> {
        self.known
    }

    /// The dialect is not known yet.
    pub fn new() -> (cell: Self)
        ensures
            cell.dialect() == None::<Dialect>,
    {
        DialectCell { known: None }
    }

    /// The dialect, where it is known; where it is, there is nothing to probe.
    pub fn known(&self) -> (r: Option<Dialect>)
        ensures
            r == self.dialect(),
    {
        self.known
    }

    /// Takes in what a probe printed. The first answer stands.
    pub fn settle(&mut self, printed: &Option<String>) -> (r: Dialect)
        ensures
            r == settled(
                old(self).dialect(),
                match *printed {
                    Some(text) => Some(text@),
                    None => None,
                },
            ),
            final(self).dialect() == Some(r),
            old(self).dialect() matches Some(known) ==> r == known,
            old(self).dialect() is None ==> (r == Dialect::Lua <==> (*printed matches Some(text)
                && trimmed(text@) == "function"@)),
    {
        match self.known {
            Some(dialect) => dialect,
            None => {
                let answer = dialect(printed);
                self.known = Some(answer);
                answer
            },
        }
    }
}

/// The dialect after a probe: the one that was known before, if any.
pub open spec fn settled(known: Option<Dialect>, printed: Option<Seq<char>>) -> Dialect {
    match known {
        Some(dialect) => dialect,
        None => dialect_of(printed),
    }
}

/// How a run of `hyprctl` went.
#[derive(Debug)]
pub enum Run {
    /// It could not be started; the text is that of the error.
    NotSpawned(String),
    Exited { success: bool, stdout: String, stderr: String },
}

/// Whether `hyprctl` turned a request down. It exits with success even then,
/// and says so on its standard output.
pub open spec fn turned_down(success: bool, stdout: Seq<char>) -> bool {
    !success || "error:"@.is_prefix_of(stdout) || stdout == "unknown request"@
}

/// What `hyprctl` answered, or why it did not.
pub open spec fn answer(args: Seq<Seq<char>>, run: Run) -> Result<Seq<char>, Seq<char>> {
    let request = "hyprctl "@ + joined(args, " "@);
    match run {
        Run::NotSpawned(error) => Err(request + " failed to spawn: "@ + error@),
        Run::Exited { success, stdout, stderr } => {
            let printed = trimmed(stdout@);
            if turned_down(success, printed) {
                Err(
                    request + " rejected: "@ + if printed.len() == 0 {
                        trimmed(stderr@)
                    } else {
                        printed
                    },
                )
            } else {
                Ok(printed)
            }
        },
    }
}

/// What `hyprctl` answered, or why it did not.
pub fn hyprctl(args: &Vec<String>, run: &Run) -> (r: Result<String, String>)
    ensures
        answer(views(args@), *run) == (match r {
            Ok(text) => Ok(text@),
            Err(text) => Err(text@),
        }),
        r is Ok <==> (*run matches Run::Exited { success, stdout, stderr } && success
            && !"error:"@.is_prefix_of(trimmed(stdout@)) && trimmed(stdout@)
            != "unknown request"@),
        match *run {
            Run::NotSpawned(error) => r matches Err(text) && text@ == "hyprctl "@ + joined(
                views(args@),
                " "@,
            ) + " failed to spawn: "@ + error@,
            Run::Exited { success, stdout, stderr } => match r {
                Ok(text) => text@ == trimmed(stdout@),
                Err(text) => text@ == "hyprctl "@ + joined(views(args@), " "@) + " rejected: "@ + (
                if trimmed(stdout@).len() == 0 {
                    trimmed(stderr@)
                } else {
                    trimmed(stdout@)
                }),
            },
        },
{
    let request = prefixed("hyprctl ", join(args, " ").as_str());
    match run {
        Run::NotSpawned(error) => Err(
            concat3(request.as_str(), " failed to spawn: ", error.as_str()),
        ),
        Run::Exited { success, stdout, stderr } => {
            let printed = trim(stdout.as_str());
            if !*success || starts_with(printed.as_str(), "error:") || same(
                printed.as_str(),
                "unknown request",
            ) {
                if chars_of(printed.as_str()).len() == 0 {
                    let said = trim(stderr.as_str());
                    Err(concat3(request.as_str(), " rejected: ", said.as_str()))
                } else {
                    Err(concat3(request.as_str(), " rejected: ", printed.as_str()))
                }
            } else {
                Ok(printed)
            }
        },
    }
}

/// What `Debug` makes of a string: quotes around it, and escapes in it.
pub uninterp spec fn debug_quoted(s: Seq<char>) -> Seq<char>;

/// `str`'s `Debug`, through `format!`: the quoted form depends on the string
/// alone.
#[verifier::external_body]
fn debug_of(s: &str) -> (r: String)
    ensures
        r@ == debug_quoted(s@),
{
    format!("{s:?}")
}

/// A digit of a hexadecimal number.
pub open spec fn is_hex(c: char) -> bool {
    '0' <= c <= '9' || 'a' <= c <= 'f' || 'A' <= c <= 'F'
}

/// A window address as the compositor issues it.
pub open spec fn is_address(address: Seq<char>) -> bool {
    &&& "0x"@.is_prefix_of(address)
    &&& forall|i: int| 2 <= i < address.len() ==> is_hex(#[trigger] address[i])
}

/// An address is `0x` and hexadecimal digits behind it, and nothing else is one.
pub proof fn law_address_is_a_hexadecimal_number(address: Seq<char>)
    ensures
        is_address(address) <==> address.len() >= 2 && address[0] == '0' && address[1] == 'x'
            && forall|i: int|
            2 <= i < address.len() ==> ('0' <= #[trigger] address[i] <= '9' || 'a' <= address[i]
                <= 'f' || 'A' <= address[i] <= 'F'),
{
    reveal_strlit("0x");
    let start = "0x"@;
    if start.is_prefix_of(address) {
        assert(start =~= address.subrange(0, 2));
        assert(address[0] == address.subrange(0, 2)[0] && address[1] == address.subrange(0, 2)[1]);
    }
    if address.len() >= 2 && address[0] == '0' && address[1] == 'x' {
        assert(start =~= address.subrange(0, 2));
    }
    if is_address(address) {
        assert forall|i: int| 2 <= i < address.len() implies ('0' <= #[trigger] address[i] <= '9'
            || 'a' <= address[i] <= 'f' || 'A' <= address[i] <= 'F') by {
            assert(is_hex(address[i]));
        }
    }
}

/// Whether `address` is one that the compositor could have issued.
pub fn is_window_address(address: &str) -> (r: bool)
    ensures
        r == is_address(address@),
        r <==> address@.len() >= 2 && address@[0] == '0' && address@[1] == 'x' && forall|i: int|
            2 <= i < address@.len() ==> ('0' <= #[trigger] address@[i] <= '9' || 'a' <= address@[i]
                <= 'f' || 'A' <= address@[i] <= 'F'),
{
    proof {
        law_address_is_a_hexadecimal_number(address@);
    }
    if !starts_with(address, "0x") {
        return false;
    }
    proof {
        reveal_strlit("0x");
    }
    let chars = chars_of(address);
    for i in 2..chars.len()
        invariant
            chars@ == address@,
            "0x"@.is_prefix_of(address@),
            forall|j: int| 2 <= j < i ==> is_hex(#[trigger] address@[j]),
    {
        proof {
            law_address_is_a_hexadecimal_number(address@);
        }
        let c = chars[i];
        if !(('0' <= c && c <= '9') || ('a' <= c && c <= 'f') || ('A' <= c && c <= 'F')) {
            assert(!is_hex(address@[i as int]));
            return false;
        }
    }
    true
}

/// Why a window is not raised, given its address in quotes.
pub fn malformed_address(quoted: &str) -> (r: String)
    ensures
        r@ == "refusing to dispatch on malformed address "@ + quoted@,
{
    prefixed("refusing to dispatch on malformed address ", quoted)
}

/// The request that raises and focuses the window with the given address.
pub open spec fn focus_request(address: Seq<char>, dialect: Dialect) -> Seq<Seq<char>> {
    let selector = "address:"@ + address;
    match dialect {
        Dialect::Lua => seq![
            "repl"@,
            "hl.dispatch(hl.dsp.focus({ window = "@ + lua_literal(selector)
                + " }))"@,
        ],
        Dialect::Legacy => seq!["dispatch"@, "focuswindow"@, selector],
    }
}

/// A window that may be raised. Its request waits for the dialect, which need
/// not be known before the address has been judged.
#[derive(Debug)]
pub struct FocusRequest {
    address: String,
}

impl FocusRequest {
    /// The address of the window.
    pub closed spec fn address(self) -> Seq<char> {
        self.address@
    }

    /// The request that raises and focuses the window.
    pub fn args(&self, dialect: Dialect) -> (args: Vec<String>)
        ensures
            views(args@) == focus_request(self.address(), dialect),
            dialect == Dialect::Legacy ==> views(args@) == seq![
                "dispatch"@,
                "focuswindow"@,
                "address:"@ + self.address(),
            ],
            dialect == Dialect::Lua ==> views(args@) == seq![
                "repl"@,
                "hl.dispatch(hl.dsp.focus({ window = "@ + lua_literal("address:"@ + self.address())
                    + " }))"@,
            ],
    {
        let selector = prefixed("address:", self.address.as_str());
        let args = match dialect {
            Dialect::Lua => {
                let window = lua_string(selector.as_str());
                vec![
                    "repl".to_string(),
                    concat3("hl.dispatch(hl.dsp.focus({ window = ", window.as_str(), " }))"),
                ]
            },
            Dialect::Legacy => vec!["dispatch".to_string(), "focuswindow".to_string(), selector],
        };
        assert(views(args@) =~= focus_request(self.address(), dialect));
        args
    }
}

/// Judges whether the window with the given address may be raised. The address
/// goes into a Lua expression, so anything that is none is refused, before
/// anything is asked of the compositor.
pub fn focus_address(address: &str) -> (r: Result<FocusRequest, String>)
    ensures
        (match r {
            Ok(request) => Ok(request.address()),
            Err(text) => Err(text@),
        }) == (if is_address(address@) {
            Ok(address@)
        } else {
            Err("refusing to dispatch on malformed address "@ + debug_quoted(address@))
        }),
{
    if !is_window_address(address) {
        return Err(malformed_address(debug_of(address).as_str()));
    }
    Ok(FocusRequest { address: address.to_string() })
}

/// The rules that make an overlay of a window, by their legacy names.
pub open spec fn legacy_rules(x: int, y: int) -> Seq<Seq<char>> {
    seq![
        "float"@,
        "pin"@,
        "nofocus"@,
        "noborder"@,
        "noshadow"@,
        "noblur"@,
        "noanim"@,
        "move "@ + decimal(x) + " "@ + decimal(y),
    ]
}

/// The requests that make an overlay of the windows whose title matches, with
/// the top left corner at (`x`, `y`).
pub open spec fn overlay_requests(
    dialect: Dialect,
    title_regex: Seq<char>,
    x: int,
    y: int,
) -> Seq<Seq<Seq<char>>> {
    match dialect {
        Dialect::Lua => seq![
            seq![
                "repl"@,
                "hl.window_rule({ match = { title = "@ + lua_literal(title_regex)
                    + " }, float = true, pin = true, no_focus = true, border_size = 0, no_shadow = true, no_blur = true, no_anim = true, move = { "@
                    + decimal(x) + ", "@ + decimal(y) + " } })"@,
            ],
        ],
        Dialect::Legacy => Seq::new(
            legacy_rules(x, y).len(),
            |i: int|
                seq![
                    "keyword"@,
                    "windowrulev2"@,
                    legacy_rules(x, y)[i] + ",title:"@ + title_regex,
                ],
        ),
    }
}

/// The arguments of each request.
pub open spec fn request_views(requests: Seq<Vec<String>>) -> Seq<Seq<Seq<char>>> {
    Seq::new(requests.len(), |i: int| views(requests[i]@))
}

fn legacy_rule_list(x: i32, y: i32) -> (rules: Vec<String>)
    ensures
        views(rules@) == legacy_rules(x as int, y as int),
{
    let mut placement = prefixed("move ", decimal_of(x).as_str());
    placement.append(" ");
    placement.append(decimal_of(y).as_str());
    let rules = vec![
        "float".to_string(),
        "pin".to_string(),
        "nofocus".to_string(),
        "noborder".to_string(),
        "noshadow".to_string(),
        "noblur".to_string(),
        "noanim".to_string(),
        placement,
    ];
    assert(views(rules@) =~= legacy_rules(x as int, y as int));
    rules
}

/// The requests that make an overlay of the windows whose title matches, with
/// the top left corner at (`x`, `y`) in logical pixels.
pub fn apply_overlay_rules(dialect: Dialect, title_regex: &str, x: i32, y: i32) -> (requests: Vec<
    Vec<String>,
>)
    ensures
        request_views(requests@) == overlay_requests(dialect, title_regex@, x as int, y as int),
        dialect == Dialect::Lua ==> request_views(requests@) == seq![
            seq![
                "repl"@,
                "hl.window_rule({ match = { title = "@ + lua_literal(title_regex@)
                    + " }, float = true, pin = true, no_focus = true, border_size = 0, no_shadow = true, no_blur = true, no_anim = true, move = { "@
                    + decimal(x as int) + ", "@ + decimal(y as int) + " } })"@,
            ],
        ],
        dialect == Dialect::Legacy ==> {
            let rules = seq![
                "float"@,
                "pin"@,
                "nofocus"@,
                "noborder"@,
                "noshadow"@,
                "noblur"@,
                "noanim"@,
                "move "@ + decimal(x as int) + " "@ + decimal(y as int),
            ];
            &&& requests@.len() == rules.len()
            &&& forall|i: int|
                0 <= i < rules.len() ==> views((#[trigger] requests@[i])@) == seq![
                    "keyword"@,
                    "windowrulev2"@,
                    rules[i] + ",title:"@ + title_regex@,
                ]
        },
{
    let ghost expected = overlay_requests(dialect, title_regex@, x as int, y as int);
    let mut requests: Vec<Vec<String>> = Vec::new();
    match dialect {
        Dialect::Lua => {
            let title = lua_string(title_regex);
            let mut rule = prefixed("hl.window_rule({ match = { title = ", title.as_str());
            rule.append(
                " }, float = true, pin = true, no_focus = true, border_size = 0, no_shadow = true, no_blur = true, no_anim = true, move = { ",
            );
            rule.append(decimal_of(x).as_str());
            rule.append(", ");
            rule.append(decimal_of(y).as_str());
            rule.append(" } })");
            let args = vec!["repl".to_string(), rule];
            assert(views(args@) =~= expected[0]);
            requests.push(args);
        },
        Dialect::Legacy => {
            let rules = legacy_rule_list(x, y);
            let ghost names = legacy_rules(x as int, y as int);
            assert(rules@.len() == names.len());
            for i in 0..rules.len()
                invariant
                    names == legacy_rules(x as int, y as int),
                    views(rules@) == names,
                    rules@.len() == names.len(),
                    expected == overlay_requests(dialect, title_regex@, x as int, y as int),
                    dialect == Dialect::Legacy,
                    request_views(requests@) == expected.take(i as int),
            {
                let rule = concat3(rules[i].as_str(), ",title:", title_regex);
                assert(views(rules@)[i as int] == rules@[i as int]@);
                let args = vec!["keyword".to_string(), "windowrulev2".to_string(), rule];
                assert(views(args@) =~= expected[i as int]);
                let ghost before = request_views(requests@);
                requests.push(args);
                assert(request_views(requests@) =~= before.push(expected[i as int]));
                assert(expected.take(i + 1) =~= expected.take(i as int).push(expected[i as int]));
            }
        },
    }
    assert(request_views(requests@) =~= expected);
    proof {
        assert(requests@.len() == expected.len());
        assert forall|i: int| 0 <= i < requests@.len() implies views((#[trigger] requests@[i])@)
            == expected[i] by {
            assert(request_views(requests@)[i] == expected[i]);
        }
    }
    requests
}

/// The texts of the runs that failed.
pub open spec fn failures(results: Seq<Result<String, String>>) -> Seq<Seq<char>>
    decreases results.len(),
{
    if results.len() == 0 {
        Seq::empty()
    } else {
        let before = failures(results.drop_last());
        match results.last() {
            Ok(_) => before,
            Err(text) => before.push(text@),
        }
    }
}

/// Whether all rules were registered, given how each request went. Every
/// failure is named.
pub fn overlay_result(results: &Vec<Result<String, String>>) -> (r: Result<(), String>)
    ensures
        match r {
            Ok(_) => failures(results@).len() == 0,
            Err(text) => failures(results@).len() > 0 && text@ == joined(
                failures(results@),
                "; "@,
            ),
        },
        r is Ok <==> forall|i: int| 0 <= i < results@.len() ==> (#[trigger] results@[i]) is Ok,
{
    proof {
        law_overlay_needs_every_rule(results@);
    }
    let mut failed: Vec<String> = Vec::new();
    for i in 0..results.len()
        invariant
            views(failed@) == failures(results@.take(i as int)),
    {
        assert(results@.take(i + 1).drop_last() =~= results@.take(i as int));
        if let Err(text) = &results[i] {
            let ghost before = views(failed@);
            failed.push(text.clone());
            assert(views(failed@) =~= before.push(text@));
        }
    }
    assert(results@.take(results@.len() as int) =~= results@);
    assert(views(failed@).len() == failed@.len());
    if failed.len() == 0 {
        Ok(())
    } else {
        Err(join(&failed, "; "))
    }
}

} // verus!
