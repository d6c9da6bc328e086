//! Output devices and the playback that currently owns them.
use crate::text::chars_of;
use crate::text::join;
use crate::text::joined;
use crate::text::same;
use crate::text::views;
use vstd::prelude::*;

verus! {

// ------------------------------------------------------------------
// Device identifiers
// ------------------------------------------------------------------
/// The Unicode lower case of a string, as the standard library maps it.
pub uninterp spec fn unicode_lowercase(s: Seq<char>) -> Seq<char>;

/// `str::to_lowercase` maps a string to its Unicode lower case. Claimed of it:
/// the result depends on the characters of the string alone.
pub assume_specification[ str::to_lowercase ](s: &str) -> (r: String)
    ensures
        r@ == unicode_lowercase(s@),
;

/// `s` with an underscore in place of every space.
pub open spec fn underscored(s: Seq<char>) -> Seq<char> {
    Seq::new(
        s.len(),
        |i: int|
            if s[i] == ' ' {
                '_'
            } else {
                s[i]
            },
    )
}

/// The identifier made of a device name that is already in lower case.
pub open spec fn prefixed(lowered: Seq<char>) -> Seq<char> {
    "device_"@ + lowered
}

/// The identifier of the device called `name`.
pub open spec fn id_of(name: Seq<char>) -> Seq<char> {
    prefixed(unicode_lowercase(underscored(name)))
}

/// Replaces every space by an underscore.
pub fn underscore_spaces(s: &str) -> (r: String)
    ensures
        r@ == underscored(s@),
        r@.len() == s@.len(),
        forall|i: int|
            0 <= i < s@.len() ==> #[trigger] r@[i] == (if s@[i] == ' ' {
                '_'
            } else {
                s@[i]
            }),
{
    let chars = chars_of(s);
    let mut r = String::new();
    for i in 0..chars.len()
        invariant
            chars@ == s@,
            r@ == underscored(s@).take(i as int),
    {
        if chars[i] == ' ' {
            r.push('_');
        } else {
            r.push(chars[i]);
        }
        assert(r@ =~= underscored(s@).take(i + 1));
    }
    assert(r@ =~= underscored(s@));
    r
}

/// The identifier made of a device name that is already in lower case.
pub fn prefixed_id(lowered: &str) -> (id: String)
    ensures
        id@ == prefixed(lowered@),
        id@ == "device_"@ + lowered@,
{
    let mut id = "device_".to_string();
    id.append(lowered);
    id
}

/// A stable identifier for the device called `name`.
pub fn device_id(name: &str) -> (id: String)
    ensures
        id@ == id_of(name@),
        exists|spaceless: Seq<char>|
            id@ == "device_"@ + #[trigger] unicode_lowercase(spaceless) && spaceless.len()
                == name@.len() && forall|i: int|
                0 <= i < name@.len() ==> #[trigger] spaceless[i] == (if name@[i] == ' ' {
                    '_'
                } else {
                    name@[i]
                }),
{
    let underscored = underscore_spaces(name);
    let lowered = underscored.as_str().to_lowercase();
    prefixed_id(lowered.as_str())
}

// ------------------------------------------------------------------
// Listing devices
// ------------------------------------------------------------------
/// A device audio can be sent to.
#[derive(Debug, Clone)]
pub struct AudioOutputDevice {
    pub id: String,
    pub name: String,
    pub is_default: bool,
}

/// An [`AudioOutputDevice`] in specifications.
pub struct Device {
    pub id: Seq<char>,
    pub name: Seq<char>,
    pub is_default: bool,
}

impl View for AudioOutputDevice {
    type V = Device;

    open spec fn view(&self) -> Device {
        Device { id: self.id@, name: self.name@, is_default: self.is_default }
    }
}

/// A device name, or the text of the error that asking for it gave.
pub open spec fn name_view(name: Result<String, String>) -> Result<Seq<char>, Seq<char>> {
    match name {
        Ok(text) => Ok(text@),
        Err(text) => Err(text@),
    }
}

/// The name of every device.
pub open spec fn name_views(names: Seq<Result<String, String>>) -> Seq<
    Result<Seq<char>, Seq<char>>,
> {
    Seq::new(names.len(), |i: int| name_view(names[i]))
}

/// What is known of every device.
pub open spec fn device_views(devices: Seq<AudioOutputDevice>) -> Seq<Device> {
    Seq::new(devices.len(), |i: int| devices[i]@)
}

/// Whether `name` is the name of the default device. A default device whose
/// name cannot be read counts as nameless.
pub open spec fn names_default(
    name: Seq<char>,
    default: Option<Result<Seq<char>, Seq<char>>>,
) -> bool {
    match default {
        Some(Ok(text)) => text == name,
        Some(Err(_)) => name.len() == 0,
        None => false,
    }
}

/// How the device called `name` is listed.
pub open spec fn device_called(
    name: Seq<char>,
    default: Option<Result<Seq<char>, Seq<char>>>,
) -> Device {
    Device { id: id_of(name), name, is_default: names_default(name, default) }
}

/// The devices as they are listed, in the order they were found. The first
/// name that cannot be read is an error for the whole list.
pub open spec fn listed(
    names: Seq<Result<Seq<char>, Seq<char>>>,
    default: Option<Result<Seq<char>, Seq<char>>>,
) -> Result<Seq<Device>, Seq<char>>
    decreases names.len(),
{
    if names.len() == 0 {
        Ok(Seq::empty())
    } else {
        match listed(names.drop_last(), default) {
            Err(text) => Err(text),
            Ok(devices) => match names.last() {
                Ok(name) => Ok(devices.push(device_called(name, default))),
                Err(text) => Err("Failed to get device name: "@ + text),
            },
        }
    }
}

/// What listing the devices returns, given what looking for them found.
pub open spec fn listing(
    found: Result<Seq<Result<Seq<char>, Seq<char>>>, Seq<char>>,
    default: Option<Result<Seq<char>, Seq<char>>>,
) -> Result<Seq<Device>, Seq<char>> {
    match found {
        Ok(names) => listed(names, default),
        Err(text) => Err("Failed to enumerate output devices: "@ + text),
    }
}

/// What looking for devices found.
pub open spec fn found_view(found: Result<Vec<Result<String, String>>, String>) -> Result<
    Seq<Result<Seq<char>, Seq<char>>>,
    Seq<char>,
> {
    match found {
        Ok(names) => Ok(name_views(names@)),
        Err(text) => Err(text@),
    }
}

/// The name of the default device, where there is one.
pub open spec fn default_view(default: Option<Result<String, String>>) -> Option<
    Result<Seq<char>, Seq<char>>,
> {
    match default {
        Some(name) => Some(name_view(name)),
        None => None,
    }
}

proof fn lemma_listed_error_stays(
    names: Seq<Result<Seq<char>, Seq<char>>>,
    default: Option<Result<Seq<char>, Seq<char>>>,
    upto: int,
)
    requires
        0 <= upto <= names.len(),
        listed(names.take(upto), default) is Err,
    ensures
        listed(names, default) == listed(names.take(upto), default),
    decreases names.len() - upto,
{
    if upto == names.len() {
        assert(names.take(upto) =~= names);
    } else {
        assert(names.take(upto + 1).drop_last() =~= names.take(upto));
        lemma_listed_error_stays(names, default, upto + 1);
    }
}

// ------------------------------------------------------------------
// Choosing devices
// ------------------------------------------------------------------
/// The identifier of a device whose name could be read.
pub open spec fn readable_id(name: Result<Seq<char>, Seq<char>>) -> Option<Seq<char>> {
    match name {
        Ok(text) => Some(id_of(text)),
        Err(_) => None,
    }
}

/// The identifier of every device whose name could be read.
pub open spec fn readable_ids(names: Seq<Result<Seq<char>, Seq<char>>>) -> Seq<Option<Seq<char>>> {
    Seq::new(names.len(), |i: int| readable_id(names[i]))
}

/// An identifier, where there is one.
pub open spec fn id_views(ids: Seq<Option<String>>) -> Seq<Option<Seq<char>>> {
    Seq::new(
        ids.len(),
        |i: int|
            match ids[i] {
                Some(id) => Some(id@),
                None => None,
            },
    )
}

/// The positions of the devices that are wanted, in the order the devices
/// were found.
pub open spec fn matching(ids: Seq<Option<Seq<char>>>, wanted: Seq<Seq<char>>) -> Seq<usize>
    decreases ids.len(),
{
    if ids.len() == 0 {
        Seq::empty()
    } else {
        let before = matching(ids.drop_last(), wanted);
        match ids.last() {
            Some(id) => if wanted.contains(id) {
                before.push((ids.len() - 1) as usize)
            } else {
                before
            },
            None => before,
        }
    }
}

/// Whether `id` is among `wanted`.
fn is_wanted(id: &str, wanted: &Vec<String>) -> (r: bool)
    ensures
        r == views(wanted@).contains(id@),
{
    for i in 0..wanted.len()
        invariant
            forall|j: int| 0 <= j < i ==> views(wanted@)[j] != id@,
    {
        if same(wanted[i].as_str(), id) {
            assert(views(wanted@)[i as int] == id@);
            return true;
        }
    }
    false
}

/// The positions of the devices that are wanted.
pub fn matching_devices(ids: &Vec<Option<String>>, wanted: &Vec<String>) -> (r: Vec<usize>)
    ensures
        r@ == matching(id_views(ids@), views(wanted@)),
        forall|a: int, b: int| 0 <= a < b < r@.len() ==> #[trigger] r@[a] < #[trigger] r@[b],
        forall|k: int| 0 <= k < r@.len() ==> #[trigger] r@[k] < ids@.len(),
        forall|i: usize|
            #![trigger r@.contains(i)]
            i < ids@.len() ==> (r@.contains(i) <==> (ids@[i as int] matches Some(id) && views(
                wanted@,
            ).contains(id@))),
{
    let mut r: Vec<usize> = Vec::new();
    let ghost all = id_views(ids@);
    for i in 0..ids.len()
        invariant
            all == id_views(ids@),
            r@ == matching(all.take(i as int), views(wanted@)),
    {
        assert(all.take(i + 1).drop_last() =~= all.take(i as int));
        if let Some(id) = &ids[i] {
            if is_wanted(id.as_str(), wanted) {
                r.push(i);
            }
        }
    }
    assert(all.take(all.len() as int) =~= all);
    proof {
        law_chosen_devices_keep_their_order(all, views(wanted@));
        assert forall|i: usize|
            #![trigger r@.contains(i)]
            i < ids@.len() implies (r@.contains(i) <==> (ids@[i as int] matches Some(id) && views(
            wanted@,
        ).contains(id@))) by {
            law_chosen_devices(all, views(wanted@), i as int);
        }
    }
    r
}

// ------------------------------------------------------------------
// Playback
// ------------------------------------------------------------------
/// How the playback thread of one device started.
#[derive(Debug)]
pub enum Readiness {
    Ready,
    Failed(String),
    /// The thread ended without saying anything.
    Vanished,
}

/// The start of playback on one device.
#[derive(Debug)]
pub struct StartReport {
    pub device_name: String,
    pub readiness: Readiness,
}

/// A playback that may begin.
#[derive(Debug)]
pub struct PlaybackStart {
    /// The positions of the devices to play on.
    pub devices: Vec<usize>,
    /// The playback that has to stop for it.
    pub stopped: Option<u64>,
    /// The new playback.
    pub playback: u64,
}

/// A playback that did not start.
#[derive(Debug)]
pub struct FailedStart {
    /// The playback whose stop flag has to be raised, so that the devices that
    /// did start stop as well.
    pub stop: u64,
    pub error: String,
}

/// The error of one device, where there is one.
pub open spec fn report_error(report: StartReport) -> Option<Seq<char>> {
    match report.readiness {
        Readiness::Ready => None,
        Readiness::Failed(text) => Some(
            "Failed to play to device "@ + report.device_name@ + ": "@ + text@,
        ),
        Readiness::Vanished => Some(
            "Playback thread for device "@ + report.device_name@
                + " exited before reporting readiness"@,
        ),
    }
}

/// The errors of all devices, in their order.
pub open spec fn report_errors(reports: Seq<StartReport>) -> Seq<Seq<char>>
    decreases reports.len(),
{
    if reports.len() == 0 {
        Seq::empty()
    } else {
        let before = report_errors(reports.drop_last());
        match report_error(reports.last()) {
            Some(text) => before.push(text),
            None => before,
        }
    }
}

/// The error of one device, where there is one.
pub fn readiness_error(report: &StartReport) -> (r: Option<String>)
    ensures
        report_error(*report) == (match r {
            Some(text) => Some(text@),
            None => None,
        }),
        match report.readiness {
            Readiness::Ready => r is None,
            Readiness::Failed(error) => r matches Some(text) && text@
                == "Failed to play to device "@ + report.device_name@ + ": "@ + error@,
            Readiness::Vanished => r matches Some(text) && text@ == "Playback thread for device "@
                + report.device_name@ + " exited before reporting readiness"@,
        },
{
    match &report.readiness {
        Readiness::Ready => None,
        Readiness::Failed(text) => {
            let mut r = "Failed to play to device ".to_string();
            r.append(report.device_name.as_str());
            r.append(": ");
            r.append(text.as_str());
            Some(r)
        },
        Readiness::Vanished => {
            let mut r = "Playback thread for device ".to_string();
            r.append(report.device_name.as_str());
            r.append(" exited before reporting readiness");
            Some(r)
        },
    }
}

/// What can go wrong around a playback. The texts are those of the errors.
#[derive(Debug)]
pub enum PlaybackFailure {
    /// Another thread panicked while it held the playback state.
    LockPoisoned,
    /// The task that waits for the devices to start failed.
    StartupTask(String),
    /// The device does not say what it plays.
    Config(String),
    /// The device plays neither 32-bit floats nor 16-bit integers.
    UnsupportedFormat,
    BuildStream(String),
    PlayStream(String),
}

/// What went wrong, in words.
pub open spec fn failure_text(failure: PlaybackFailure) -> Seq<char> {
    match failure {
        PlaybackFailure::LockPoisoned => "Audio playback state lock is poisoned"@,
        PlaybackFailure::StartupTask(e) => "Playback startup task failed: "@ + e@,
        PlaybackFailure::Config(e) => "Failed to get default config: "@ + e@,
        PlaybackFailure::UnsupportedFormat => "Unsupported sample format"@,
        PlaybackFailure::BuildStream(e) => "Failed to build stream: "@ + e@,
        PlaybackFailure::PlayStream(e) => "Failed to play stream: "@ + e@,
    }
}

/// What went wrong, in words.
pub fn playback_error(failure: &PlaybackFailure) -> (r: String)
    ensures
        r@ == failure_text(*failure),
        match *failure {
            PlaybackFailure::LockPoisoned => r@ == "Audio playback state lock is poisoned"@,
            PlaybackFailure::StartupTask(e) => r@ == "Playback startup task failed: "@ + e@,
            PlaybackFailure::Config(e) => r@ == "Failed to get default config: "@ + e@,
            PlaybackFailure::UnsupportedFormat => r@ == "Unsupported sample format"@,
            PlaybackFailure::BuildStream(e) => r@ == "Failed to build stream: "@ + e@,
            PlaybackFailure::PlayStream(e) => r@ == "Failed to play stream: "@ + e@,
        },
{
    let mut r = String::new();
    match failure {
        PlaybackFailure::LockPoisoned => {
            return "Audio playback state lock is poisoned".to_string();
        },
        PlaybackFailure::UnsupportedFormat => {
            return "Unsupported sample format".to_string();
        },
        PlaybackFailure::StartupTask(e) => {
            r = "Playback startup task failed: ".to_string();
            r.append(e.as_str());
        },
        PlaybackFailure::Config(e) => {
            r = "Failed to get default config: ".to_string();
            r.append(e.as_str());
        },
        PlaybackFailure::BuildStream(e) => {
            r = "Failed to build stream: ".to_string();
            r.append(e.as_str());
        },
        PlaybackFailure::PlayStream(e) => {
            r = "Failed to play stream: ".to_string();
            r.append(e.as_str());
        },
    }
    r
}

/// What stopping all playback returns, and the playback that is active then.
pub open spec fn stopping(active: Option<u64>, poisoned: bool) -> (
    Result<Option<u64>, Seq<char>>,
    Option<u64>,
) {
    if poisoned {
        (Err(failure_text(PlaybackFailure::LockPoisoned)), active)
    } else {
        (Ok(active), None)
    }
}

/// The active playback once `playback` has given up the devices.
pub open spec fn given_up(active: Option<u64>, playback: u64, poisoned: bool) -> Option<u64> {
    if !poisoned && active == Some(playback) {
        None
    } else {
        active
    }
}

/// Which playback, if any, holds the output devices. Every playback has a
/// number of its own, and its stop flag is raised under that number.
#[derive(Debug)]
pub struct AudioOutputState {
    active: Option<u64>,
    started: u64,
}

impl AudioOutputState {
    /// The playback that holds the devices.
    pub closed spec fn active(self) -> Option<u64> {
        self.active
    }

    /// How many playbacks there have been. Their numbers are all below it.
    pub closed spec fn started(self) -> u64 {
        self.started
    }

    /// The active playback is one that has been started.
    pub open spec fn well_formed(self) -> bool {
        self.active() matches Some(playback) ==> playback < self.started()
    }

    /// No playback yet.
    pub fn new() -> (state: Self)
        ensures
            state.well_formed(),
            state.active() == None::<u64>,
            state.started() == 0,
    {
        AudioOutputState { active: None, started: 0 }
    }

    /// Whether there is a number left for another playback.
    pub fn can_start(&self) -> (r: bool)
        ensures
            r == (self.started() < u64::MAX),
    {
        self.started < u64::MAX
    }

    /// Stops whatever is playing: nothing is active afterwards. Returns the
    /// playback whose stop flag has to be raised. Where the lock on the state is
    /// poisoned nothing happens, and that is the error.
    pub fn stop_all_playback(&mut self, poisoned: bool) -> (r: Result<Option<u64>, String>)
        ensures
            (
                match r {
                    Ok(stopped) => Ok(stopped),
                    Err(text) => Err(text@),
                },
                final(self).active(),
            ) == stopping(old(self).active(), poisoned),
            !poisoned ==> r == Ok::<Option<u64>, String>(old(self).active())
                && final(self).active() == None::<u64>,
            poisoned ==> final(self).active() == old(self).active() && (r matches Err(text)
                && text@ == "Audio playback state lock is poisoned"@),
            final(self).started() == old(self).started(),
            old(self).well_formed() ==> final(self).well_formed(),
    {
        if poisoned {
            return Err(playback_error(&PlaybackFailure::LockPoisoned));
        }
        Ok(self.active.take())
    }

    /// Gives up the devices on behalf of `playback`. One that has already been
    /// replaced changes nothing.
    pub fn clear_stop_flag_if_current(&mut self, playback: u64, poisoned: bool) -> (r: Result<
        (),
        String,
    >)
        ensures
            match r {
                Ok(_) => !poisoned,
                Err(text) => poisoned && text@ == failure_text(PlaybackFailure::LockPoisoned),
            },
            final(self).active() == given_up(old(self).active(), playback, poisoned),
            !poisoned && old(self).active() == Some(playback) ==> final(self).active()
                == None::<u64>,
            poisoned || old(self).active() != Some(playback) ==> final(self).active()
                == old(self).active(),
            final(self).started() == old(self).started(),
            old(self).well_formed() ==> final(self).well_formed(),
    {
        if poisoned {
            return Err(playback_error(&PlaybackFailure::LockPoisoned));
        }
        if let Some(current) = self.active {
            if current == playback {
                self.active = None;
            }
        }
        Ok(())
    }

    /// The output devices, given the names found and that of the default one.
    #[verifier::rlimit(40)]
    pub fn list_output_devices(
        found: &Result<Vec<Result<String, String>>, String>,
        default: &Option<Result<String, String>>,
    ) -> (r: Result<Vec<AudioOutputDevice>, String>)
        ensures
            listing(found_view(*found), default_view(*default)) == (match r {
                Ok(devices) => Ok(device_views(devices@)),
                Err(text) => Err(text@),
            }),
            match *found {
                Err(reason) => r matches Err(text) && text@
                    == "Failed to enumerate output devices: "@ + reason@,
                Ok(names) => {
                    &&& (forall|i: int| 0 <= i < names@.len() ==> (#[trigger] names@[i]) is Ok)
                        <==> r is Ok
                    &&& r matches Ok(devices) ==> devices@.len() == names@.len() && forall|i: int|
                        #![trigger devices@[i]]
                        0 <= i < names@.len() ==> {
                            &&& devices@[i].name@ == names@[i]->Ok_0@
                            &&& devices@[i].id@ == id_of(names@[i]->Ok_0@)
                            &&& devices@[i].is_default <==> (match *default {
                                Some(Ok(name)) => name@ == devices@[i].name@,
                                Some(Err(_)) => devices@[i].name@.len() == 0,
                                None => false,
                            })
                        }
                    &&& forall|j: int|
                        0 <= j < names@.len() && (#[trigger] names@[j]) is Err && (forall|i: int|
                            0 <= i < j ==> (#[trigger] names@[i]) is Ok) ==> (r matches Err(text)
                            && text@ == "Failed to get device name: "@ + names@[j]->Err_0@)
                },
            },
    {
        let names = match found {
            Ok(names) => names,
            Err(text) => {
                let mut message = "Failed to enumerate output devices: ".to_string();
                message.append(text.as_str());
                return Err(message);
            },
        };
        let ghost all = name_views(names@);
        let ghost default_name = default_view(*default);
        let mut devices: Vec<AudioOutputDevice> = Vec::new();
        assert(device_views(devices@) =~= Seq::empty());
        for i in 0..names.len()
            invariant
                *found matches Ok(held) && held@ == names@,
                all == name_views(names@),
                default_name == default_view(*default),
                listed(all.take(i as int), default_name) == Ok::<_, Seq<char>>(
                    device_views(devices@),
                ),
        {
            assert(all.take(i + 1).drop_last() =~= all.take(i as int));
            let ghost before = devices@;
            match &names[i] {
                Err(text) => {
                    let mut message = "Failed to get device name: ".to_string();
                    message.append(text.as_str());
                    proof {
                        lemma_listed_error_stays(all, default_name, i + 1);
                        lemma_listing_outcomes(all, default_name);
                        assert forall|k: int| 0 <= k < names@.len() implies #[trigger] names@[k]
                            is Ok <==> all[k] is Ok by {}
                        assert forall|j: int|
                            0 <= j < names@.len() && (#[trigger] names@[j]) is Err && (forall|
                                k: int,
                            |
                                0 <= k < j ==> (#[trigger] names@[k]) is Ok) implies message@
                            == "Failed to get device name: "@ + names@[j]->Err_0@ by {
                            assert forall|k: int| 0 <= k < j implies (#[trigger] all[k]) is Ok by {
                                assert(names@[k] is Ok);
                            }
                            assert(all[j] is Err);
                        }
                    }
                    return Err(message);
                },
                Ok(name) => {
                    let is_default = match default {
                        Some(Ok(text)) => same(text.as_str(), name.as_str()),
                        Some(Err(_)) => name.as_str().is_empty(),
                        None => false,
                    };
                    devices.push(
                        AudioOutputDevice {
                            id: device_id(name.as_str()),
                            name: name.clone(),
                            is_default,
                        },
                    );
                    assert(device_views(devices@) =~= device_views(before).push(
                        device_called(name@, default_name),
                    ));
                },
            }
        }
        assert(all.take(all.len() as int) =~= all);
        proof {
            lemma_listing_outcomes(all, default_name);
            assert forall|k: int| 0 <= k < names@.len() implies (#[trigger] names@[k]) is Ok by {
                assert(all[k] is Ok);
            }
            assert forall|k: int| 0 <= k < names@.len() implies (#[trigger] devices@[k])@
                == device_called(names@[k]->Ok_0@, default_name) by {
                assert(device_views(devices@)[k] == devices@[k]@);
                assert(all[k] == name_view(names@[k]));
            }
            assert(device_views(devices@).len() == devices@.len());
        }
        Ok(devices)
    }

    /// Claims the devices for a new playback on those in `device_ids`, given
    /// the names found. A device whose name cannot be read never matches.
    /// Where nothing can be played, or the lock on the state is poisoned, the
    /// current playback goes on.
    pub fn play_audio_to_devices(
        &mut self,
        poisoned: bool,
        found: &Result<Vec<Result<String, String>>, String>,
        device_ids: &Vec<String>,
    ) -> (r: Result<PlaybackStart, String>)
        requires
            old(self).started() < u64::MAX,
        ensures
            match found_view(*found) {
                Err(text) => {
                    &&& r matches Err(message)
                    &&& message@ == "Failed to enumerate devices: "@ + text
                    &&& *final(self) == *old(self)
                },
                Ok(names) => {
                    let devices = matching(readable_ids(names), views(device_ids@));
                    if devices.len() == 0 {
                        &&& r matches Err(message)
                        &&& message@ == "No matching devices found"@
                        &&& *final(self) == *old(self)
                    } else if poisoned {
                        &&& r matches Err(message)
                        &&& message@ == failure_text(PlaybackFailure::LockPoisoned)
                        &&& *final(self) == *old(self)
                    } else {
                        &&& r matches Ok(start)
                        &&& start.devices@ == devices
                        &&& start.stopped == old(self).active()
                        &&& start.playback == old(self).started()
                        &&& final(self).active() == Some(start.playback)
                        &&& final(self).started() == old(self).started() + 1
                    }
                },
            },
            old(self).well_formed() ==> final(self).well_formed(),
            r matches Ok(start) ==> (*found matches Ok(names) && {
                &&& start.devices@.len() > 0
                &&& forall|a: int, b: int|
                    0 <= a < b < start.devices@.len() ==> #[trigger] start.devices@[a]
                        < #[trigger] start.devices@[b]
                &&& forall|k: int|
                    0 <= k < start.devices@.len() ==> #[trigger] start.devices@[k] < names@.len()
                &&& forall|i: usize|
                    #![trigger start.devices@.contains(i)]
                    i < names@.len() ==> (start.devices@.contains(i) <==> (
                    names@[i as int] matches Ok(name) && views(device_ids@).contains(
                        id_of(name@),
                    )))
            }),
            *found matches Err(reason) ==> *final(self) == *old(self) && (r matches Err(text)
                && text@ == "Failed to enumerate devices: "@ + reason@),
            (*found matches Ok(names) && forall|i: int|
                0 <= i < names@.len() ==> !((#[trigger] names@[i]) matches Ok(name) && views(
                    device_ids@,
                ).contains(id_of(name@)))) ==> *final(self) == *old(self) && (r matches Err(text)
                && text@ == "No matching devices found"@),
            poisoned && (*found matches Ok(names) && exists|i: int|
                0 <= i < names@.len() && ((#[trigger] names@[i]) matches Ok(name) && views(
                    device_ids@,
                ).contains(id_of(name@)))) ==> *final(self) == *old(self) && (r matches Err(text)
                && text@ == "Audio playback state lock is poisoned"@),
            !poisoned && (*found matches Ok(names) && exists|i: int|
                0 <= i < names@.len() && ((#[trigger] names@[i]) matches Ok(name) && views(
                    device_ids@,
                ).contains(id_of(name@)))) ==> r is Ok,
    {
        let names = match found {
            Ok(names) => names,
            Err(text) => {
                let mut message = "Failed to enumerate devices: ".to_string();
                message.append(text.as_str());
                return Err(message);
            },
        };
        let mut ids: Vec<Option<String>> = Vec::new();
        let ghost readable = readable_ids(name_views(names@));
        for i in 0..names.len()
            invariant
                readable == readable_ids(name_views(names@)),
                id_views(ids@) == readable.take(i as int),
        {
            let ghost before = ids@;
            match &names[i] {
                Ok(name) => ids.push(Some(device_id(name.as_str()))),
                Err(_) => ids.push(None),
            }
            assert(id_views(ids@) =~= id_views(before).push(readable[i as int]));
            assert(readable.take(i + 1) =~= readable.take(i as int).push(readable[i as int]));
        }
        assert(readable.take(readable.len() as int) =~= readable);
        let devices = matching_devices(&ids, device_ids);
        proof {
            assert forall|i: usize| i < names@.len() implies (#[trigger] devices@.contains(i) <==> (
            names@[i as int] matches Ok(name) && views(device_ids@).contains(id_of(name@)))) by {
                assert(id_views(ids@)[i as int] == readable[i as int]);
                assert(readable[i as int] == readable_id(name_views(names@)[i as int]));
            }
            assert(id_views(ids@).len() == names@.len());
            if exists|i: int|
                0 <= i < names@.len() && ((#[trigger] names@[i]) matches Ok(name) && views(
                    device_ids@,
                ).contains(id_of(name@))) {
                let i = choose|i: int|
                    0 <= i < names@.len() && ((#[trigger] names@[i]) matches Ok(name) && views(
                        device_ids@,
                    ).contains(id_of(name@)));
                assert(devices@.contains(i as usize));
            }
            if devices@.len() > 0 {
                assert(devices@.contains(devices@[0]));
            }
        }
        if devices.len() == 0 {
            return Err("No matching devices found".to_string());
        }
        let stopped = match self.stop_all_playback(poisoned) {
            Ok(stopped) => stopped,
            Err(text) => {
                return Err(text);
            },
        };
        let playback = self.started;
        self.started = playback + 1;
        self.active = Some(playback);
        Ok(PlaybackStart { devices, stopped, playback })
    }

    /// Settles how `playback` started, given what its devices reported. It
    /// stands only if every device is ready. Otherwise it is handed back to be
    /// stopped, it gives up the devices, and the errors are returned in the
    /// order of the devices; or that the lock on the state is poisoned.
    pub fn finish_startup(
        &mut self,
        playback: u64,
        reports: &Vec<StartReport>,
        poisoned: bool,
    ) -> (r: Result<(), FailedStart>)
        ensures
            ({
                let errors = report_errors(reports@);
                if errors.len() == 0 {
                    r is Ok && *final(self) == *old(self)
                } else {
                    &&& r matches Err(failed)
                    &&& failed.stop == playback
                    &&& failed.error@ == (if poisoned {
                        failure_text(PlaybackFailure::LockPoisoned)
                    } else {
                        joined(errors, "; "@)
                    })
                    &&& final(self).active() == given_up(old(self).active(), playback, poisoned)
                    &&& final(self).started() == old(self).started()
                }
            }),
            old(self).well_formed() ==> final(self).well_formed(),
            r is Ok <==> forall|i: int|
                0 <= i < reports@.len() ==> (#[trigger] reports@[i]).readiness is Ready,
            r is Ok ==> *final(self) == *old(self),
            r matches Err(failed) ==> failed.stop == playback,
            r is Err && !poisoned && old(self).active() == Some(playback) ==> final(self).active()
                == None::<u64>,
            r is Err && (poisoned || old(self).active() != Some(playback))
                ==> final(self).active() == old(self).active(),
            r is Err && poisoned ==> r->Err_0.error@ == "Audio playback state lock is poisoned"@,
    {
        proof {
            law_startup_needs_every_device(reports@);
        }
        let mut errors: Vec<String> = Vec::new();
        assert(views(errors@) =~= Seq::empty());
        for i in 0..reports.len()
            invariant
                views(errors@) == report_errors(reports@.take(i as int)),
                *self == *old(self),
        {
            assert(reports@.take(i + 1).drop_last() =~= reports@.take(i as int));
            let ghost before = errors@;
            if let Some(text) = readiness_error(&reports[i]) {
                errors.push(text);
                assert(views(errors@) =~= views(before).push(text@));
            }
        }
        assert(reports@.take(reports@.len() as int) =~= reports@);
        if errors.len() == 0 {
            return Ok(());
        }
        match self.clear_stop_flag_if_current(playback, poisoned) {
            Ok(_) => Err(FailedStart { stop: playback, error: join(&errors, "; ") }),
            Err(error) => Err(FailedStart { stop: playback, error }),
        }
    }

    /// Settles that the thread for a device of `playback` could not be started:
    /// the playback is handed back to be stopped and gives up the devices.
    pub fn thread_failed(
        &mut self,
        playback: u64,
        device_name: &str,
        error: &str,
        poisoned: bool,
    ) -> (r: FailedStart)
        ensures
            r.stop == playback,
            r.error@ == (if poisoned {
                failure_text(PlaybackFailure::LockPoisoned)
            } else {
                "Failed to start playback thread for device "@ + device_name@ + ": "@ + error@
            }),
            poisoned ==> r.error@ == "Audio playback state lock is poisoned"@,
            !poisoned && old(self).active() == Some(playback) ==> final(self).active()
                == None::<u64>,
            poisoned || old(self).active() != Some(playback) ==> final(self).active()
                == old(self).active(),
            final(self).active() == given_up(old(self).active(), playback, poisoned),
            final(self).started() == old(self).started(),
            old(self).well_formed() ==> final(self).well_formed(),
    {
        match self.clear_stop_flag_if_current(playback, poisoned) {
            Ok(_) => {
                let mut r = "Failed to start playback thread for device ".to_string();
                r.append(device_name);
                r.append(": ");
                r.append(error);
                FailedStart { stop: playback, error: r }
            },
            Err(error) => FailedStart { stop: playback, error },
        }
    }
}

impl Default for AudioOutputState {
    fn default() -> (state: Self)
        ensures
            state.well_formed(),
            state.active() == None::<u64>,
            state.started() == 0,
    {
        AudioOutputState::new()
    }
}

// ------------------------------------------------------------------
// Laws
// ------------------------------------------------------------------
/// Stopping is always possible unless the lock is poisoned, leaves nothing
/// active, and changes nothing when it is done again. Under a poisoned lock it
/// is refused and changes nothing.
pub proof fn law_stopping_twice_is_stopping_once(active: Option<u64>)
    ensures
        stopping(active, false) == (Ok::<Option<u64>, Seq<char>>(active), None::<u64>),
        stopping(stopping(active, false).1, false) == (
            Ok::<Option<u64>, Seq<char>>(None),
            None::<u64>,
        ),
        stopping(active, true) == (
            Err::<Option<u64>, Seq<char>>("Audio playback state lock is poisoned"@),
            active,
        ),
{
}

/// A playback that has been replaced cannot take the devices from its
/// successor.
pub proof fn law_successor_keeps_the_devices(successor: u64, playback: u64, poisoned: bool)
    requires
        successor != playback,
    ensures
        given_up(Some(successor), playback, poisoned) == Some(successor),
{
}

/// A playback gives up the devices it holds, and no others, and only where the
/// lock on the state allows it.
pub proof fn law_playback_gives_up_its_own_devices(
    active: Option<u64>,
    playback: u64,
    poisoned: bool,
)
    ensures
        !poisoned ==> given_up(Some(playback), playback, poisoned) == None::<u64>,
        active != Some(playback) || poisoned ==> given_up(active, playback, poisoned) == active,
{
}

/// An identifier keeps every character of the name but the spaces, which become
/// underscores, before its case is lowered.
pub proof fn law_identifier_comes_from_the_name(name: Seq<char>)
    ensures
        id_of(name) == "device_"@ + unicode_lowercase(underscored(name)),
        underscored(name).len() == name.len(),
        forall|i: int|
            0 <= i < name.len() && name[i] == ' ' ==> #[trigger] underscored(name)[i] == '_',
        forall|i: int|
            0 <= i < name.len() && name[i] != ' ' ==> #[trigger] underscored(name)[i] == name[i],
{
}

/// How many of the devices did not start.
pub open spec fn unready(reports: Seq<StartReport>) -> nat
    decreases reports.len(),
{
    if reports.len() == 0 {
        0
    } else {
        unready(reports.drop_first()) + (if reports.first().readiness is Ready {
            0nat
        } else {
            1
        })
    }
}

proof fn lemma_errors_from_the_front(reports: Seq<StartReport>)
    requires
        reports.len() > 0,
    ensures
        report_errors(reports) == (match report_error(reports[0]) {
            Some(text) => seq![text],
            None => Seq::<Seq<char>>::empty(),
        }) + report_errors(reports.drop_first()),
    decreases reports.len(),
{
    let head = match report_error(reports[0]) {
        Some(text) => seq![text],
        None => Seq::<Seq<char>>::empty(),
    };
    if reports.len() == 1 {
        assert(reports.drop_last() =~= Seq::<StartReport>::empty());
        assert(reports.drop_first() =~= Seq::<StartReport>::empty());
        assert(report_errors(reports) =~= head + report_errors(reports.drop_first()));
    } else {
        lemma_errors_from_the_front(reports.drop_last());
        assert(reports.drop_last().drop_first() =~= reports.drop_first().drop_last());
        assert(reports.drop_first().last() == reports.last());
        assert(reports.drop_last()[0] == reports[0]);
        assert(report_errors(reports) =~= head + report_errors(reports.drop_first()));
    }
}

/// There are no errors exactly where every device is ready, and otherwise there
/// is one for each device that is not.
pub proof fn law_startup_needs_every_device(reports: Seq<StartReport>)
    ensures
        report_errors(reports).len() == unready(reports),
        report_errors(reports).len() == 0 <==> forall|i: int|
            0 <= i < reports.len() ==> (#[trigger] reports[i]).readiness is Ready,
    decreases reports.len(),
{
    if reports.len() > 0 {
        let rest = reports.drop_first();
        lemma_errors_from_the_front(reports);
        law_startup_needs_every_device(rest);
        if forall|i: int| 0 <= i < reports.len() ==> (#[trigger] reports[i]).readiness is Ready {
            assert(reports[0].readiness is Ready);
            assert forall|i: int| 0 <= i < rest.len() implies (#[trigger] rest[i]).readiness is Ready by {
                assert(rest[i] == reports[i + 1]);
            }
        }
        if report_errors(reports).len() == 0 {
            assert forall|i: int| 0 <= i < reports.len() implies (
            #[trigger] reports[i]).readiness is Ready by {
                if i > 0 {
                    assert(rest[i - 1] == reports[i]);
                }
            }
        }
    }
}

/// The error of a device that is not ready stands behind those of the devices
/// before it, and says what became of the device.
pub proof fn law_error_stands_in_the_order_of_the_devices(reports: Seq<StartReport>, i: int)
    requires
        0 <= i < reports.len(),
    ensures
        ({
            let before = unready(reports.take(i));
            let name = reports[i].device_name@;
            match reports[i].readiness {
                Readiness::Ready => true,
                Readiness::Failed(text) => before < report_errors(reports).len() && report_errors(
                    reports,
                )[before as int] == "Failed to play to device "@ + name + ": "@ + text@,
                Readiness::Vanished => before < report_errors(reports).len() && report_errors(
                    reports,
                )[before as int] == "Playback thread for device "@ + name
                    + " exited before reporting readiness"@,
            }
        }),
    decreases reports.len(),
{
    let rest = reports.drop_first();
    lemma_errors_from_the_front(reports);
    if i > 0 {
        law_error_stands_in_the_order_of_the_devices(rest, i - 1);
        assert(rest[i - 1] == reports[i]);
        assert(reports.take(i).drop_first() =~= rest.take(i - 1));
        assert(reports.take(i).first() == reports[0]);
    } else {
        assert(reports.take(0) =~= Seq::<StartReport>::empty());
    }
}

/// The devices are chosen in the order in which they were found, each once.
pub proof fn law_chosen_devices_keep_their_order(
    ids: Seq<Option<Seq<char>>>,
    wanted: Seq<Seq<char>>,
)
    requires
        ids.len() <= usize::MAX,
    ensures
        forall|a: int, b: int|
            0 <= a < b < matching(ids, wanted).len() ==> #[trigger] matching(ids, wanted)[a]
                < #[trigger] matching(ids, wanted)[b],
        forall|k: int|
            0 <= k < matching(ids, wanted).len() ==> #[trigger] matching(ids, wanted)[k]
                < ids.len(),
    decreases ids.len(),
{
    lemma_matching_bounds(ids, wanted);
    if ids.len() > 0 {
        let rest = ids.drop_last();
        law_chosen_devices_keep_their_order(rest, wanted);
        lemma_matching_bounds(rest, wanted);
        let before = matching(rest, wanted);
        let all = matching(ids, wanted);
        assert forall|a: int, b: int| 0 <= a < b < all.len() implies #[trigger] all[a]
            < #[trigger] all[b] by {
            assert(all[a] == before[a]);
            if b < before.len() {
                assert(all[b] == before[b]);
            }
        }
    }
}

/// A position is chosen exactly where the device there has a wanted
/// identifier.
pub proof fn law_chosen_devices(ids: Seq<Option<Seq<char>>>, wanted: Seq<Seq<char>>, i: int)
    requires
        0 <= i < ids.len() <= usize::MAX,
    ensures
        matching(ids, wanted).contains(i as usize) <==> (ids[i] matches Some(id)
            && wanted.contains(id)),
    decreases ids.len(),
{
    let before = matching(ids.drop_last(), wanted);
    let last = (ids.len() - 1) as usize;
    lemma_matching_bounds(ids.drop_last(), wanted);
    if i < ids.len() - 1 {
        law_chosen_devices(ids.drop_last(), wanted, i);
        assert(before.push(last).contains(i as usize) <==> before.contains(i as usize)) by {
            if before.contains(i as usize) {
                let k = choose|k: int| 0 <= k < before.len() && before[k] == i as usize;
                assert(before.push(last)[k] == i as usize);
            }
        }
    } else {
        assert(!before.contains(last));
        assert(before.push(last)[before.len() as int] == last);
    }
}

proof fn lemma_matching_bounds(ids: Seq<Option<Seq<char>>>, wanted: Seq<Seq<char>>)
    requires
        ids.len() <= usize::MAX,
    ensures
        forall|k: int|
            0 <= k < matching(ids, wanted).len() ==> #[trigger] matching(ids, wanted)[k]
                < ids.len(),
    decreases ids.len(),
{
    if ids.len() > 0 {
        lemma_matching_bounds(ids.drop_last(), wanted);
        let before = matching(ids.drop_last(), wanted);
        assert forall|k: int| 0 <= k < matching(ids, wanted).len() implies #[trigger] matching(
            ids,
            wanted,
        )[k] < ids.len() by {
            if k < before.len() {
                assert(matching(ids, wanted)[k] == before[k]);
            }
        }
    }
}

/// A device that is listed can be played on: asking for the identifier it is
/// listed under chooses it.
pub proof fn law_listed_device_is_playable(
    names: Seq<Result<Seq<char>, Seq<char>>>,
    default: Option<Result<Seq<char>, Seq<char>>>,
    wanted: Seq<Seq<char>>,
    i: int,
)
    requires
        names.len() <= usize::MAX,
        listed(names, default) matches Ok(devices) && 0 <= i < devices.len() && wanted.contains(
            devices[i].id,
        ),
    ensures
        matching(readable_ids(names), wanted).contains(i as usize),
{
    lemma_listed_devices(names, default);
    law_chosen_devices(readable_ids(names), wanted, i);
}

/// Every name of a list without errors is listed at its own position.
proof fn lemma_listed_devices(
    names: Seq<Result<Seq<char>, Seq<char>>>,
    default: Option<Result<Seq<char>, Seq<char>>>,
)
    requires
        listed(names, default) is Ok,
    ensures
        listed(names, default)->Ok_0.len() == names.len(),
        forall|i: int|
            0 <= i < names.len() ==> (#[trigger] names[i]) is Ok && listed(names, default)->Ok_0[i]
                == device_called(names[i]->Ok_0, default),
    decreases names.len(),
{
    if names.len() > 0 {
        let before = names.drop_last();
        lemma_listed_devices(before, default);
        assert forall|i: int| 0 <= i < names.len() implies (#[trigger] names[i]) is Ok && listed(
            names,
            default,
        )->Ok_0[i] == device_called(names[i]->Ok_0, default) by {
            if i < names.len() - 1 {
                assert(before[i] == names[i]);
            }
        }
    }
}

/// Each device is listed at its own position, under its own name, and marked as
/// the default one exactly where it bears the name of that.
pub proof fn law_listed_device_is_the_one_found(
    names: Seq<Result<Seq<char>, Seq<char>>>,
    default: Option<Result<Seq<char>, Seq<char>>>,
    i: int,
)
    requires
        forall|j: int| 0 <= j < names.len() ==> (#[trigger] names[j]) is Ok,
        0 <= i < names.len(),
    ensures
        listed(names, default) matches Ok(devices) && {
            &&& devices.len() == names.len()
            &&& devices[i].name == names[i]->Ok_0
            &&& devices[i].id == id_of(names[i]->Ok_0)
            &&& default is None ==> !devices[i].is_default
            &&& default matches Some(Ok(name)) ==> (devices[i].is_default <==> names[i]->Ok_0
                == name)
            &&& default matches Some(Err(_)) ==> (devices[i].is_default
                <==> names[i]->Ok_0.len() == 0)
        },
{
    law_listing_needs_every_name(names, default);
    lemma_listed_devices(names, default);
    assert(names[i] is Ok);
}

/// The first name that cannot be read is what the error of the list says.
pub proof fn law_first_unreadable_name_is_the_error(
    names: Seq<Result<Seq<char>, Seq<char>>>,
    default: Option<Result<Seq<char>, Seq<char>>>,
    j: int,
)
    requires
        0 <= j < names.len(),
        names[j] is Err,
        forall|i: int| 0 <= i < j ==> (#[trigger] names[i]) is Ok,
    ensures
        listed(names, default) == Err::<Seq<Device>, Seq<char>>(
            "Failed to get device name: "@ + names[j]->Err_0,
        ),
{
    let before = names.take(j);
    let with = names.take(j + 1);
    assert forall|i: int| 0 <= i < before.len() implies (#[trigger] before[i]) is Ok by {
        assert(names[i] is Ok);
    }
    law_listing_needs_every_name(before, default);
    assert(with.drop_last() =~= before);
    assert(with.last() == names[j]);
    lemma_listed_error_stays(names, default, j + 1);
}

proof fn lemma_listing_outcomes(
    names: Seq<Result<Seq<char>, Seq<char>>>,
    default: Option<Result<Seq<char>, Seq<char>>>,
)
    ensures
        listed(names, default) is Ok <==> forall|i: int|
            0 <= i < names.len() ==> (#[trigger] names[i]) is Ok,
        listed(names, default) matches Ok(devices) ==> devices.len() == names.len() && forall|i: int|
            0 <= i < names.len() ==> #[trigger] devices[i] == device_called(
                names[i]->Ok_0,
                default,
            ),
        forall|j: int|
            0 <= j < names.len() && (#[trigger] names[j]) is Err && (forall|i: int|
                0 <= i < j ==> (#[trigger] names[i]) is Ok) ==> listed(names, default) == Err::<
                Seq<Device>,
                Seq<char>,
            >("Failed to get device name: "@ + names[j]->Err_0),
{
    law_listing_needs_every_name(names, default);
    if listed(names, default) is Ok {
        lemma_listed_devices(names, default);
        assert forall|i: int| 0 <= i < names.len() implies #[trigger] listed(
            names,
            default,
        )->Ok_0[i] == device_called(names[i]->Ok_0, default) by {
            assert(names[i] is Ok);
        }
    }
    assert forall|j: int|
        0 <= j < names.len() && (#[trigger] names[j]) is Err && (forall|i: int|
            0 <= i < j ==> (#[trigger] names[i]) is Ok) implies listed(names, default) == Err::<
        Seq<Device>,
        Seq<char>,
    >("Failed to get device name: "@ + names[j]->Err_0) by {
        law_first_unreadable_name_is_the_error(names, default, j);
    }
}

/// The devices are listed exactly where every name can be read.
pub proof fn law_listing_needs_every_name(
    names: Seq<Result<Seq<char>, Seq<char>>>,
    default: Option<Result<Seq<char>, Seq<char>>>,
)
    ensures
        listed(names, default) is Ok <==> forall|i: int|
            0 <= i < names.len() ==> (#[trigger] names[i]) is Ok,
    decreases names.len(),
{
    if names.len() > 0 {
        let before = names.drop_last();
        law_listing_needs_every_name(before, default);
        if listed(names, default) is Ok {
            lemma_listed_devices(names, default);
        } else {
            if forall|i: int| 0 <= i < names.len() ==> (#[trigger] names[i]) is Ok {
                assert forall|i: int| 0 <= i < before.len() implies (#[trigger] before[i]) is Ok by {
                    assert(names[i] is Ok);
                }
                assert(names[names.len() - 1] is Ok);
            }
        }
    }
}

} // verus!
