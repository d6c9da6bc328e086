//! The virtual keyboard behind the kernel's uinput interface: its keys, and
//! the transitions that make up a paste.
use crate::linux::paste::Accelerator;
use crate::text::concat3;
use crate::text::decimal;
use crate::text::decimal_of;
use vstd::prelude::*;

verus! {

/// How long to wait after creating the device before trusting it to deliver, in
/// milliseconds. Paid once per process.
pub const DEVICE_SETTLE_MS: u64 = 250;

/// The gap between key transitions, in milliseconds. Some toolkits drop a
/// modifier and a key that arrive together.
pub const KEY_INTERVAL_MS: u64 = 12;

// ------------------------------------------------------------------
// Key codes
// ------------------------------------------------------------------
/// The left Ctrl key.
pub const LEFT_CTRL: u16 = 29;

/// The left Shift key.
pub const LEFT_SHIFT: u16 = 42;

/// The V key.
pub const V: u16 = 47;

/// `evdev::KeyCode::KEY_LEFTCTRL` is the code 29.
#[verifier::external_body]
fn left_ctrl() -> (code: u16)
    ensures
        code == LEFT_CTRL,
{
    evdev::KeyCode::KEY_LEFTCTRL.code()
}

/// `evdev::KeyCode::KEY_LEFTSHIFT` is the code 42.
#[verifier::external_body]
fn left_shift() -> (code: u16)
    ensures
        code == LEFT_SHIFT,
{
    evdev::KeyCode::KEY_LEFTSHIFT.code()
}

/// `evdev::KeyCode::KEY_V` is the code 47.
#[verifier::external_body]
fn v_key() -> (code: u16)
    ensures
        code == V,
{
    evdev::KeyCode::KEY_V.code()
}

// ------------------------------------------------------------------
// The keys a device declares
// ------------------------------------------------------------------
/// A set of keys, as `evdev::AttributeSet` holds it.
#[verifier::external_body]
pub struct KeySet {
    keys: evdev::AttributeSet<evdev::KeyCode>,
}

/// The codes of the keys in the set.
pub uninterp spec fn key_codes(keys: KeySet) -> Set<u16>;

/// `evdev::AttributeSet::new` makes a set without any key.
#[verifier::external_body]
fn no_keys() -> (keys: KeySet)
    ensures
        key_codes(keys) == Set::<u16>::empty(),
{
    KeySet { keys: evdev::AttributeSet::new() }
}

/// `evdev::AttributeSetRef::insert` adds the key to the set and changes nothing
/// else. The set has room for the codes below 768; it panics on any other.
#[verifier::external_body]
fn insert(keys: &mut KeySet, code: u16)
    requires
        code < 768,
    ensures
        key_codes(*final(keys)) == key_codes(*old(keys)).insert(code),
{
    keys.keys.insert(evdev::KeyCode::new(code))
}

/// The codes of some keys in ascending order, each once.
pub open spec fn lists_keys(codes: Seq<u16>, keys: Set<u16>) -> bool {
    &&& codes.to_set() == keys
    &&& forall|a: int, b: int| 0 <= a < b < codes.len() ==> codes[a] < codes[b]
}

/// `evdev::AttributeSetRef::iter` hands out every key of the set once, the one
/// with the lowest code first.
#[verifier::external_body]
fn codes_of(keys: &KeySet) -> (codes: Vec<u16>)
    ensures
        lists_keys(codes@, key_codes(*keys)),
{
    keys.keys.iter().map(|key| key.code()).collect()
}

/// The keys the virtual keyboard is created with.
pub open spec fn declared_keys() -> Seq<u16> {
    seq![LEFT_CTRL, LEFT_SHIFT, V]
}

proof fn lemma_declared(codes: Seq<u16>)
    requires
        lists_keys(codes, set![LEFT_CTRL, LEFT_SHIFT, V]),
    ensures
        codes == declared_keys(),
{
    let keys = set![LEFT_CTRL, LEFT_SHIFT, V];
    assert forall|i: int| 0 <= i < codes.len() implies keys.contains(#[trigger] codes[i]) by {
        assert(codes.to_set().contains(codes[i]));
    }
    assert(codes.to_set().contains(LEFT_CTRL));
    assert(codes.to_set().contains(LEFT_SHIFT));
    assert(codes.to_set().contains(V));
    let a = choose|a: int| 0 <= a < codes.len() && codes[a] == LEFT_CTRL;
    let b = choose|b: int| 0 <= b < codes.len() && codes[b] == LEFT_SHIFT;
    let c = choose|c: int| 0 <= c < codes.len() && codes[c] == V;
    assert(a < b < c);
    if a > 0 {
        assert(codes[0] < codes[a]);
    }
    if b > 1 {
        assert(codes[a] < codes[1] < codes[b]);
    }
    if c > 2 {
        assert(codes[b] < codes[2] < codes[c]);
    }
    if codes.len() > 3 {
        assert(codes[c] < codes[3]);
    }
    assert(codes =~= declared_keys());
}

/// The keys the virtual keyboard is created with.
pub fn device_keys() -> (codes: Vec<u16>)
    ensures
        codes@ == declared_keys(),
        codes@ == seq![29u16, 42u16, 47u16],
{
    let mut keys = no_keys();
    insert(&mut keys, left_ctrl());
    insert(&mut keys, left_shift());
    insert(&mut keys, v_key());
    assert(key_codes(keys) =~= set![LEFT_CTRL, LEFT_SHIFT, V]);
    let codes = codes_of(&keys);
    proof {
        lemma_declared(codes@);
    }
    codes
}

/// Why there is no device to send from. The texts are those of the errors.
#[derive(Debug)]
pub enum DeviceFailure {
    /// Another thread panicked while it held the device.
    Poisoned,
    Open(String),
    DeclareKeys(String),
    Create(String),
}

/// Why there is no device, in words.
pub open spec fn device_error(failure: DeviceFailure) -> Seq<char> {
    match failure {
        DeviceFailure::Poisoned => "virtual keyboard mutex was poisoned"@,
        DeviceFailure::Open(e) => "could not open /dev/uinput: "@ + e@,
        DeviceFailure::DeclareKeys(e) => "could not declare keys on the virtual keyboard: "@ + e@,
        DeviceFailure::Create(e) => "could not create the virtual keyboard: "@ + e@,
    }
}

/// Why there is no device, in words.
pub fn build_device_error(failure: &DeviceFailure) -> (r: String)
    ensures
        r@ == device_error(*failure),
        match *failure {
            DeviceFailure::Poisoned => r@ == "virtual keyboard mutex was poisoned"@,
            DeviceFailure::Open(e) => r@ == "could not open /dev/uinput: "@ + e@,
            DeviceFailure::DeclareKeys(e) => r@
                == "could not declare keys on the virtual keyboard: "@ + e@,
            DeviceFailure::Create(e) => r@ == "could not create the virtual keyboard: "@ + e@,
        },
{
    let mut r = String::new();
    match failure {
        DeviceFailure::Poisoned => {
            return "virtual keyboard mutex was poisoned".to_string();
        },
        DeviceFailure::Open(e) => {
            r = "could not open /dev/uinput: ".to_string();
            r.append(e.as_str());
        },
        DeviceFailure::DeclareKeys(e) => {
            r = "could not declare keys on the virtual keyboard: ".to_string();
            r.append(e.as_str());
        },
        DeviceFailure::Create(e) => {
            r = "could not create the virtual keyboard: ".to_string();
            r.append(e.as_str());
        },
    }
    r
}

// ------------------------------------------------------------------
// Transitions
// ------------------------------------------------------------------
/// A key and its new state: 1 for pressed, 0 for released.
pub type Transition = (u16, i32);

/// The modifiers of an accelerator, in the order they are pressed.
pub open spec fn modifiers(accelerator: Accelerator) -> Seq<u16> {
    match accelerator {
        Accelerator::Standard => seq![LEFT_CTRL],
        Accelerator::Terminal => seq![LEFT_CTRL, LEFT_SHIFT],
    }
}

/// Each key pressed, in order.
pub open spec fn presses(keys: Seq<u16>) -> Seq<Transition> {
    Seq::new(keys.len(), |i: int| (keys[i], 1i32))
}

/// Each key released, the last one first.
pub open spec fn releases(keys: Seq<u16>) -> Seq<Transition> {
    Seq::new(keys.len(), |i: int| (keys[keys.len() - 1 - i], 0i32))
}

/// What the keyboard does for one paste: V goes down and up while the modifiers
/// are held.
pub open spec fn transitions(accelerator: Accelerator) -> Seq<Transition> {
    presses(modifiers(accelerator)) + seq![(V, 1i32), (V, 0i32)] + releases(
        modifiers(accelerator),
    )
}

/// What the keyboard does for one paste.
fn transition_list(accelerator: Accelerator) -> (r: Vec<Transition>)
    ensures
        r@ == transitions(accelerator),
{
    let mut keys: Vec<u16> = vec![left_ctrl()];
    if accelerator == Accelerator::Terminal {
        keys.push(left_shift());
    }
    assert(keys@ =~= modifiers(accelerator));
    let mut r: Vec<Transition> = Vec::new();
    for i in 0..keys.len()
        invariant
            r@ == presses(keys@).take(i as int),
    {
        r.push((keys[i], 1));
        assert(r@ =~= presses(keys@).take(i + 1));
    }
    assert(r@ =~= presses(keys@));
    r.push((v_key(), 1));
    r.push((v_key(), 0));
    let ghost down = presses(keys@) + seq![(V, 1i32), (V, 0i32)];
    assert(r@ =~= down);
    let count = keys.len();
    for i in 0..count
        invariant
            count == keys@.len(),
            r@ == down + releases(keys@).take(i as int),
    {
        r.push((keys[count - 1 - i], 0));
        assert(r@ =~= down + releases(keys@).take(i + 1));
    }
    assert(r@ =~= transitions(accelerator));
    r
}

/// `evdev::KeyEvent::new` makes an event of the key type, 1, with the given
/// code and value. It is handed out as type, code and value.
#[verifier::external_body]
fn key_event(code: u16, value: i32) -> (r: (u16, u16, i32))
    ensures
        r == (1u16, code, value),
{
    let event = evdev::KeyEvent::new(evdev::KeyCode::new(code), value);
    (event.event_type().0, event.code().code(), event.value())
}

/// The names of the keys in use.
pub open spec fn key_label(code: u16) -> Seq<char> {
    if code == LEFT_CTRL {
        "KEY_LEFTCTRL"@
    } else if code == LEFT_SHIFT {
        "KEY_LEFTSHIFT"@
    } else {
        "KEY_V"@
    }
}

/// `evdev::KeyCode`'s `Debug` writes the name of the constant with that code.
#[verifier::external_body]
fn key_debug(code: u16) -> (r: String)
    requires
        code == LEFT_CTRL || code == LEFT_SHIFT || code == V,
    ensures
        r@ == key_label(code),
{
    format!("{:?}", evdev::KeyCode::new(code))
}

/// Why a transition could not be sent.
pub open spec fn emit_error(transition: Transition, error: Seq<char>) -> Seq<char> {
    "could not emit "@ + key_label(transition.0) + "="@ + decimal(transition.1 as int)
        + ": "@ + error
}

fn emit_error_text(transition: Transition, error: &str) -> (r: String)
    requires
        transition.0 == LEFT_CTRL || transition.0 == LEFT_SHIFT || transition.0 == V,
    ensures
        r@ == emit_error(transition, error@),
{
    let mut r = concat3("could not emit ", key_debug(transition.0).as_str(), "=");
    r.append(decimal_of(transition.1).as_str());
    r.append(": ");
    r.append(error);
    r
}

/// The paste that the keyboard is carrying out.
#[derive(Debug)]
pub struct Keystrokes {
    accelerator: Accelerator,
    transitions: Vec<Transition>,
    next: usize,
    failure: Option<String>,
}

/// Why the paste fails after one more transition: the first error counts.
pub open spec fn failure_after(
    failure: Option<Seq<char>>,
    transition: Transition,
    error: Option<Seq<char>>,
) -> Option<Seq<char>> {
    match (failure, error) {
        (Some(failure), _) => Some(failure),
        (None, Some(error)) => Some(emit_error(transition, error)),
        (None, None) => None,
    }
}

/// Why the paste fails, given how its transitions went so far.
pub open spec fn first_failure(accelerator: Accelerator, emitted: Seq<Option<Seq<char>>>) -> Option<
    Seq<char>,
>
    decreases emitted.len(),
{
    if emitted.len() == 0 {
        None
    } else {
        failure_after(
            first_failure(accelerator, emitted.drop_last()),
            transitions(accelerator)[emitted.len() - 1],
            emitted.last(),
        )
    }
}

impl Keystrokes {
    pub closed spec fn accelerator(self) -> Accelerator {
        self.accelerator
    }

    /// How many transitions have been sent.
    pub closed spec fn sent(self) -> nat {
        self.next as nat
    }

    /// The error that will be reported.
    pub closed spec fn failure(self) -> Option<Seq<char>> {
        match self.failure {
            Some(text) => Some(text@),
            None => None,
        }
    }

    /// The transitions are those of the accelerator.
    pub closed spec fn well_formed(self) -> bool {
        &&& self.transitions@ == transitions(self.accelerator)
        &&& self.next <= self.transitions@.len()
    }

    /// Begins a paste.
    pub fn new(accelerator: Accelerator) -> (r: Keystrokes)
        ensures
            r.well_formed(),
            r.accelerator() == accelerator,
            r.sent() == 0,
            r.failure() == None::<Seq<char>>,
    {
        Keystrokes {
            accelerator,
            transitions: transition_list(accelerator),
            next: 0,
            failure: None,
        }
    }

    /// The event to send next, as type, code and value.
    pub fn next_event(&self) -> (r: Option<(u16, u16, i32)>)
        requires
            self.well_formed(),
        ensures
            r == (if self.sent() < transitions(self.accelerator()).len() {
                let transition = transitions(self.accelerator())[self.sent() as int];
                Some((1u16, transition.0, transition.1))
            } else {
                None
            }),
            self.accelerator() == Accelerator::Standard ==> {
                let all = seq![
                    (1u16, 29u16, 1i32),
                    (1u16, 47u16, 1i32),
                    (1u16, 47u16, 0i32),
                    (1u16, 29u16, 0i32),
                ];
                r == if self.sent() < all.len() {
                    Some(all[self.sent() as int])
                } else {
                    None
                }
            },
            self.accelerator() == Accelerator::Terminal ==> {
                let all = seq![
                    (1u16, 29u16, 1i32),
                    (1u16, 42u16, 1i32),
                    (1u16, 47u16, 1i32),
                    (1u16, 47u16, 0i32),
                    (1u16, 42u16, 0i32),
                    (1u16, 29u16, 0i32),
                ];
                r == if self.sent() < all.len() {
                    Some(all[self.sent() as int])
                } else {
                    None
                }
            },
    {
        if self.next < self.transitions.len() {
            let transition = self.transitions[self.next];
            Some(key_event(transition.0, transition.1))
        } else {
            None
        }
    }

    /// Takes in how sending that event went. An error does not end the paste:
    /// a modifier left down would stay down for every application.
    pub fn emitted(&mut self, error: &Option<String>)
        requires
            old(self).well_formed(),
            old(self).sent() < transitions(old(self).accelerator()).len(),
        ensures
            final(self).well_formed(),
            final(self).accelerator() == old(self).accelerator(),
            final(self).sent() == old(self).sent() + 1,
            final(self).failure() == failure_after(
                old(self).failure(),
                transitions(old(self).accelerator())[old(self).sent() as int],
                match *error {
                    Some(text) => Some(text@),
                    None => None,
                },
            ),
            old(self).failure() is Some || *error is None ==> final(self).failure()
                == old(self).failure(),
            old(self).failure() is None && *error is Some ==> final(self).failure() == Some(
                emit_error(
                    transitions(old(self).accelerator())[old(self).sent() as int],
                    error->0@,
                ),
            ),
            old(self).failure() is None && *error is Some ==> ({
                let transition = transitions(old(self).accelerator())[old(self).sent() as int];
                final(self).failure() == Some(
                    "could not emit "@ + key_label(transition.0) + "="@ + decimal(
                        transition.1 as int,
                    ) + ": "@ + error->0@,
                )
            }),
    {
        let count = self.transitions.len();
        assert(self.next < count);
        let transition = self.transitions[self.next];
        proof {
            lemma_transition_keys(self.accelerator, self.next as int);
        }
        if self.failure.is_none() {
            if let Some(text) = error {
                self.failure = Some(emit_error_text(transition, text.as_str()));
            }
        }
        self.next = self.next + 1;
    }

    /// Whether the paste was sent.
    pub fn finish(self) -> (r: Result<(), String>)
        ensures
            match r {
                Ok(_) => self.failure() is None,
                Err(text) => self.failure() == Some(text@),
            },
    {
        match self.failure {
            Some(text) => Err(text),
            None => Ok(()),
        }
    }
}

proof fn lemma_transition_keys(accelerator: Accelerator, i: int)
    requires
        0 <= i < transitions(accelerator).len(),
    ensures
        ({
            let key = transitions(accelerator)[i].0;
            key == LEFT_CTRL || key == LEFT_SHIFT || key == V
        }),
{
}

} // verus!
