//! What holds of the compositor requests as a whole.
use crate::linux::hyprland::dialect_of;
use crate::linux::hyprland::settled;
use crate::linux::hyprland::Dialect;
use crate::linux::hyprland::Monitor;
use crate::linux::hyprland::Run;
use crate::linux::hyprland::answer;
use crate::linux::hyprland::failures;
use crate::linux::hyprland::is_address;
use crate::linux::hyprland::is_hex;
use crate::linux::hyprland::monitor_in_use;
use crate::linux::lua::closing;
use crate::linux::lua::free_level;
use crate::linux::lua::law_lua_reads_the_value_back;
use crate::linux::lua::lua_literal;
use crate::linux::lua::lua_value;
use crate::linux::lua::opening;
use crate::text::occurs_at;
use crate::text::trimmed;
use vstd::prelude::*;

verus! {

proof fn lemma_no_bracket_no_closing(value: Seq<char>)
    requires
        forall|i: int| 0 <= i < value.len() ==> value[i] != ']',
    ensures
        free_level(value, 0) == 0,
{
    let close = closing(0);
    let guarded = value.push(']');
    assert forall|at: int| !occurs_at(guarded, close, at) by {
        if occurs_at(guarded, close, at) {
            let found = guarded.subrange(at, at + close.len());
            assert(found[0] == close[0]);
            assert(found[0] == value[at]);
        }
    }
}

/// An accepted address cannot break out of the Lua expression it is put into:
/// its literal is the plain one, and Lua reads the very selector back that the
/// legacy request hands over as it is.
pub proof fn law_accepted_address_stays_in_its_literal(address: Seq<char>)
    requires
        is_address(address),
    ensures
        lua_literal("address:"@ + address) == "[["@ + ("address:"@ + address)
            + "]]"@,
        lua_value(lua_literal("address:"@ + address)) == Some(
            "address:"@ + address,
        ),
{
    let selector = "address:"@ + address;
    reveal_strlit("address:");
    reveal_strlit("0x");
    reveal_strlit("[[");
    reveal_strlit("]]");
    let start = "0x"@;
    assert(start =~= address.subrange(0, 2));
    assert(address[0] == start[0] && address[1] == start[1]);
    assert forall|i: int| 0 <= i < selector.len() implies selector[i] != ']' && selector[i]
        != '\r' by {
        if i >= 8 {
            assert(selector[i] == address[i - 8]);
            if i >= 10 {
                assert(is_hex(address[i - 8]));
            }
        }
    }
    lemma_no_bracket_no_closing(selector);
    assert(opening(0) =~= "[["@);
    assert(closing(0) =~= "]]"@);
    law_lua_reads_the_value_back(selector);
}

/// The monitor in use is one that the compositor reported. Where any is
/// focused, it is the first of those.
pub proof fn law_focused_monitor_is_in_use(monitors: Seq<Monitor>, focused: int)
    requires
        0 <= focused < monitors.len(),
        monitors[focused].focused,
        forall|j: int| 0 <= j < focused ==> !(#[trigger] monitors[j]).focused,
    ensures
        monitor_in_use(monitors) == Some(monitors[focused]),
    decreases focused,
{
    if focused > 0 {
        let rest = monitors.skip(1);
        assert(!monitors[0].focused);
        assert(rest[focused - 1] == monitors[focused]);
        assert forall|j: int| 0 <= j < focused - 1 implies !(#[trigger] rest[j]).focused by {
            assert(rest[j] == monitors[j + 1]);
        }
        law_focused_monitor_is_in_use(rest, focused - 1);
    }
}

/// Where no monitor is focused the first one is in use, and none where there is
/// none.
pub proof fn law_first_monitor_stands_in(monitors: Seq<Monitor>)
    requires
        forall|j: int| 0 <= j < monitors.len() ==> !(#[trigger] monitors[j]).focused,
    ensures
        monitors.len() > 0 ==> monitor_in_use(monitors) == Some(monitors[0]),
        monitors.len() == 0 ==> monitor_in_use(monitors) is None,
{
}

/// How many requests were turned down.
pub open spec fn turned_down_in(results: Seq<Result<String, String>>) -> nat
    decreases results.len(),
{
    if results.len() == 0 {
        0
    } else {
        turned_down_in(results.drop_first()) + (if results.first() is Err {
            1nat
        } else {
            0
        })
    }
}

proof fn lemma_failures_from_the_front(results: Seq<Result<String, String>>)
    requires
        results.len() > 0,
    ensures
        failures(results) == (match results[0] {
            Err(text) => seq![text@],
            Ok(_) => Seq::<Seq<char>>::empty(),
        }) + failures(results.drop_first()),
    decreases results.len(),
{
    let head = match results[0] {
        Err(text) => seq![text@],
        Ok(_) => Seq::<Seq<char>>::empty(),
    };
    if results.len() == 1 {
        assert(results.drop_last() =~= Seq::<Result<String, String>>::empty());
        assert(results.drop_first() =~= Seq::<Result<String, String>>::empty());
    } else {
        lemma_failures_from_the_front(results.drop_last());
        assert(results.drop_last().drop_first() =~= results.drop_first().drop_last());
        assert(results.drop_first().last() == results.last());
        assert(results.drop_last()[0] == results[0]);
    }
    assert(failures(results) =~= head + failures(results.drop_first()));
}

/// Every request that was turned down is named by its error, in the order of the
/// requests, and no other one is.
pub proof fn law_every_failure_is_named(results: Seq<Result<String, String>>, i: int)
    requires
        0 <= i < results.len(),
    ensures
        failures(results).len() == turned_down_in(results),
        results[i] matches Err(text) ==> turned_down_in(results.take(i)) < failures(results).len()
            && failures(results)[turned_down_in(results.take(i)) as int] == text@,
    decreases results.len(),
{
    let rest = results.drop_first();
    lemma_failures_from_the_front(results);
    if rest.len() > 0 {
        law_every_failure_is_named(
            rest,
            if i > 0 {
                i - 1
            } else {
                0
            },
        );
    }
    if i > 0 {
        assert(rest[i - 1] == results[i]);
        assert(results.take(i).drop_first() =~= rest.take(i - 1));
        assert(results.take(i).first() == results[0]);
    } else {
        assert(results.take(0) =~= Seq::<Result<String, String>>::empty());
    }
}

/// A run is answered exactly where it succeeded and did not say that the request
/// was turned down; the answer is what it printed, but for the white space around
/// it.
pub proof fn law_turned_down_requests_are_errors(
    args: Seq<Seq<char>>,
    success: bool,
    stdout: String,
    stderr: String,
)
    ensures
        ({
            let run = Run::Exited { success, stdout, stderr };
            &&& answer(args, run) is Ok <==> success && !"error:"@.is_prefix_of(trimmed(stdout@))
                && trimmed(stdout@) != "unknown request"@
            &&& answer(args, run) matches Ok(text) ==> text == trimmed(stdout@)
        }),
{
}

/// The overlay is in place exactly when every one of its rules was accepted.
pub proof fn law_overlay_needs_every_rule(results: Seq<Result<String, String>>)
    ensures
        failures(results).len() == 0 <==> forall|i: int|
            0 <= i < results.len() ==> (#[trigger] results[i]) is Ok,
    decreases results.len(),
{
    if results.len() > 0 {
        let before = results.drop_last();
        law_overlay_needs_every_rule(before);
        if failures(results).len() == 0 {
            assert(results.last() is Ok);
            assert forall|i: int| 0 <= i < results.len() implies (#[trigger] results[i]) is Ok by {
                if i < before.len() {
                    assert(before[i] == results[i]);
                }
            }
        } else if forall|i: int| 0 <= i < results.len() ==> (#[trigger] results[i]) is Ok {
            assert(results[results.len() - 1] is Ok);
            assert forall|i: int| 0 <= i < before.len() implies (#[trigger] before[i]) is Ok by {
                assert(before[i] == results[i]);
            }
        }
    }
}

/// What each call for the dialect answers, given what a probe would print at
/// each.
pub open spec fn dialect_answers(
    known: Option<Dialect>,
    probes: Seq<Option<Seq<char>>>,
) -> Seq<Dialect>
    decreases probes.len(),
{
    if probes.len() == 0 {
        Seq::empty()
    } else {
        let answer = settled(known, probes[0]);
        seq![answer] + dialect_answers(Some(answer), probes.skip(1))
    }
}

/// The first answer stands for the whole process: every later call gives it
/// again, whatever a new probe would print.
pub proof fn law_first_dialect_stands(probes: Seq<Option<Seq<char>>>, i: int)
    requires
        0 <= i < probes.len(),
    ensures
        dialect_answers(None, probes).len() == probes.len(),
        dialect_answers(None, probes)[i] == dialect_of(probes[0]),
{
    let answer = dialect_of(probes[0]);
    lemma_known_dialect_stays(answer, probes.skip(1));
    if i > 0 {
        assert(dialect_answers(Some(answer), probes.skip(1))[i - 1] == answer);
    }
}

proof fn lemma_known_dialect_stays(known: Dialect, probes: Seq<Option<Seq<char>>>)
    ensures
        dialect_answers(Some(known), probes).len() == probes.len(),
        forall|i: int|
            0 <= i < probes.len() ==> #[trigger] dialect_answers(Some(known), probes)[i] == known,
    decreases probes.len(),
{
    if probes.len() > 0 {
        let rest = probes.skip(1);
        lemma_known_dialect_stays(known, rest);
        assert forall|i: int| 0 <= i < probes.len() implies #[trigger] dialect_answers(
            Some(known),
            probes,
        )[i] == known by {
            if i > 0 {
                assert(dialect_answers(Some(known), rest)[i - 1] == known);
            }
        }
    }
}

} // verus!
