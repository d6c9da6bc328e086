//! What holds of a paste as a whole.
use crate::linux::paste::Accelerator;
use crate::linux::paste::is_terminal;
use crate::linux::paste::terminal_markers;
use crate::linux::paste::wtype_arguments;
use crate::linux::virtual_keyboard::LEFT_CTRL;
use crate::linux::virtual_keyboard::LEFT_SHIFT;
use crate::linux::virtual_keyboard::Transition;
use crate::linux::virtual_keyboard::V;
use crate::linux::virtual_keyboard::declared_keys;
use crate::linux::virtual_keyboard::emit_error;
use crate::linux::virtual_keyboard::first_failure;
use crate::linux::virtual_keyboard::modifiers;
use crate::linux::virtual_keyboard::transitions;
use crate::text::ascii_lower;
use crate::text::has_substring;
use crate::text::occurs_at;
use vstd::prelude::*;

verus! {

/// The keys that are down after the given transitions.
pub open spec fn held(transitions: Seq<Transition>) -> Set<u16>
    decreases transitions.len(),
{
    if transitions.len() == 0 {
        Set::empty()
    } else {
        let before = held(transitions.drop_last());
        let (code, value) = transitions.last();
        if value == 0 {
            before.remove(code)
        } else {
            before.insert(code)
        }
    }
}

proof fn lemma_held_after(before: Seq<Transition>, last: Transition)
    ensures
        held(before.push(last)) == if last.1 == 0 {
            held(before).remove(last.0)
        } else {
            held(before).insert(last.0)
        },
{
    assert(before.push(last).drop_last() =~= before);
}

/// While V goes down, the modifiers of the accelerator are held and nothing
/// else is.
pub proof fn law_modifiers_are_held_for_the_key(accelerator: Accelerator)
    ensures
        ({
            let modifiers = modifiers(accelerator);
            let all = transitions(accelerator);
            &&& all[modifiers.len() as int] == (V, 1i32)
            &&& held(all.take(modifiers.len() as int)) =~= modifiers.to_set()
        }),
{
    let modifiers = modifiers(accelerator);
    let all = transitions(accelerator);
    let none = Seq::<Transition>::empty();
    lemma_held_after(none, all[0]);
    assert(all.take(1) =~= none.push(all[0]));
    match accelerator {
        Accelerator::Standard => {
            assert(modifiers[0] == LEFT_CTRL);
        },
        Accelerator::Terminal => {
            lemma_held_after(all.take(1), all[1]);
            assert(all.take(2) =~= all.take(1).push(all[1]));
            assert(modifiers[0] == LEFT_CTRL);
            assert(modifiers[1] == LEFT_SHIFT);
        },
    }
}

/// The standard accelerator holds Ctrl, that of a terminal Ctrl and Shift: V goes
/// down and up once, between the presses and the releases of these.
pub proof fn law_paste_is_ctrl_v(accelerator: Accelerator)
    ensures
        accelerator == Accelerator::Standard ==> transitions(accelerator) == seq![
            (29u16, 1i32),
            (47u16, 1i32),
            (47u16, 0i32),
            (29u16, 0i32),
        ],
        accelerator == Accelerator::Terminal ==> transitions(accelerator) == seq![
            (29u16, 1i32),
            (42u16, 1i32),
            (47u16, 1i32),
            (47u16, 0i32),
            (42u16, 0i32),
            (29u16, 0i32),
        ],
{
    match accelerator {
        Accelerator::Standard => {
            assert(transitions(accelerator) =~= seq![
                (29u16, 1i32),
                (47u16, 1i32),
                (47u16, 0i32),
                (29u16, 0i32),
            ]);
        },
        Accelerator::Terminal => {
            assert(transitions(accelerator) =~= seq![
                (29u16, 1i32),
                (42u16, 1i32),
                (47u16, 1i32),
                (47u16, 0i32),
                (42u16, 0i32),
                (29u16, 0i32),
            ]);
        },
    }
}

/// No key is left down after a paste.
pub proof fn law_every_key_is_released(accelerator: Accelerator)
    ensures
        held(transitions(accelerator)) == Set::<u16>::empty(),
{
    let all = transitions(accelerator);
    reveal_with_fuel(held, 7);
    let a = all.drop_last();
    let b = a.drop_last();
    let c = b.drop_last();
    match accelerator {
        Accelerator::Standard => {
            assert(all.len() == 4);
            assert(c.drop_last() =~= Seq::<Transition>::empty());
        },
        Accelerator::Terminal => {
            assert(all.len() == 6);
            assert(c.drop_last().drop_last().drop_last() =~= Seq::<Transition>::empty());
        },
    }
    assert(held(all) =~= Set::<u16>::empty());
}

/// The modifiers that `wtype` holds after the given arguments, which come in
/// pairs.
pub open spec fn wtype_held(args: Seq<Seq<char>>) -> Set<Seq<char>>
    decreases args.len(),
{
    if args.len() < 2 {
        Set::empty()
    } else {
        let before = wtype_held(args.take(args.len() - 2));
        let option = args[args.len() - 2];
        if option == "-M"@ {
            before.insert(args.last())
        } else if option == "-m"@ {
            before.remove(args.last())
        } else {
            before
        }
    }
}

/// `wtype` is not left holding a modifier: it exits at once, and the modifier
/// would stick.
pub proof fn law_wtype_releases_its_modifiers(accelerator: Accelerator)
    ensures
        wtype_held(wtype_arguments(accelerator)) == Set::<Seq<char>>::empty(),
{
    let args = wtype_arguments(accelerator);
    reveal_strlit("-M");
    reveal_strlit("-m");
    reveal_strlit("-k");
    assert("-M"@[1] == 'M');
    assert("-m"@[1] == 'm');
    assert("-k"@[1] == 'k');
    reveal_with_fuel(wtype_held, 7);
    match accelerator {
        Accelerator::Standard => {
            assert(args.take(4).take(2).take(0) =~= Seq::<Seq<char>>::empty());
            assert(args.len() == 6);
        },
        Accelerator::Terminal => {
            assert(args.len() == 10);
            assert(args.take(8).take(6).take(4).take(2).take(0) =~= Seq::<Seq<char>>::empty());
        },
    }
    assert(wtype_held(args) =~= Set::<Seq<char>>::empty());
}

/// The virtual keyboard has every key that a paste uses.
pub proof fn law_declared_keys_suffice(accelerator: Accelerator, i: int)
    requires
        0 <= i < transitions(accelerator).len(),
    ensures
        declared_keys().contains(transitions(accelerator)[i].0),
{
    assert(declared_keys()[0] == LEFT_CTRL);
    assert(declared_keys()[1] == LEFT_SHIFT);
    assert(declared_keys()[2] == V);
}

/// A paste fails exactly when a transition does, and the first error is the one
/// that is reported.
pub proof fn law_first_error_is_reported(
    accelerator: Accelerator,
    emitted: Seq<Option<Seq<char>>>,
    first: int,
)
    requires
        0 <= first <= emitted.len(),
        forall|j: int| 0 <= j < first ==> (#[trigger] emitted[j]) is None,
        first < emitted.len() ==> emitted[first] is Some,
    ensures
        first_failure(accelerator, emitted) == if first
            == emitted.len() {
            None
        } else {
            Some(
                emit_error(
                    transitions(accelerator)[first],
                    emitted[first]->0,
                ),
            )
        },
    decreases emitted.len(),
{
    if emitted.len() > 0 {
        let before = emitted.drop_last();
        if first < emitted.len() {
            if first < before.len() {
                assert(before[first] == emitted[first]);
            }
            assert forall|j: int| 0 <= j < first implies (#[trigger] before[j]) is None by {
                assert(before[j] == emitted[j]);
            }
            law_first_error_is_reported(accelerator, before, first);
        } else {
            assert forall|j: int| 0 <= j < before.len() implies (#[trigger] before[j]) is None by {
                assert(before[j] == emitted[j]);
            }
            assert(emitted[emitted.len() - 1] is None);
            law_first_error_is_reported(accelerator, before, before.len() as int);
        }
    }
}

/// Whether a class is a terminal's does not depend on its case.
pub proof fn law_class_in_any_case(one: Seq<char>, other: Seq<char>)
    requires
        ascii_lower(one) == ascii_lower(other),
    ensures
        is_terminal(one) == is_terminal(other),
{
}

/// A terminal is recognised by its bare class and by any longer id that holds
/// it, such as a reverse domain name.
pub proof fn law_longer_id_is_still_a_terminal(
    before: Seq<char>,
    class: Seq<char>,
    after: Seq<char>,
)
    requires
        is_terminal(class),
    ensures
        is_terminal(before + class + after),
{
    let markers = terminal_markers();
    let lower = ascii_lower(class);
    let i = choose|i: int|
        0 <= i < markers.len() && has_substring(lower, #[trigger] markers[i]);
    let at = choose|at: int| occurs_at(lower, markers[i], at);
    let longer = ascii_lower(before + class + after);
    let there = at + before.len();
    assert(longer.subrange(there, there + markers[i].len()) =~= lower.subrange(
        at,
        at + markers[i].len(),
    ));
    assert(occurs_at(longer, markers[i], there));
}

} // verus!
