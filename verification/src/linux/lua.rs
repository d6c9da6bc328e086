//! Lua string literals.
//!
//! Window-rule regexes are full of backslashes, which Lua's quoted strings
//! would take as escapes. Its long-bracket form has none.
use crate::text::chars_of;
use crate::text::contains;
use crate::text::has_substring;
use crate::text::occurs_at;
use crate::text::repeat;
use crate::text::repeated;
use vstd::prelude::*;

verus! {

/// The bracket that opens a literal of the given level.
pub open spec fn opening(level: nat) -> Seq<char> {
    seq!['['] + repeated('=', level) + seq!['[']
}

/// The bracket that closes a literal of the given level.
pub open spec fn closing(level: nat) -> Seq<char> {
    seq![']'] + repeated('=', level) + seq![']']
}

/// The first level from `level` on whose closing bracket does not stand in
/// `value`, nor in `value` and the first character of that bracket behind it.
pub open spec fn free_level(value: Seq<char>, level: nat) -> nat
    decreases value.len() - level,
{
    if level < value.len() && has_substring(value.push(']'), closing(level)) {
        free_level(value, level + 1)
    } else {
        level
    }
}

/// `value` between the shortest long brackets whose closing one is met nowhere
/// but at the end.
pub open spec fn lua_literal(value: Seq<char>) -> Seq<char> {
    let level = free_level(value, 0);
    opening(level) + value + closing(level)
}

fn bracket(end: &str, level: usize) -> (r: String)
    ensures
        r@ == end@ + repeated('=', level as nat) + end@,
{
    let mut r = end.to_string();
    r.append(repeat('=', level).as_str());
    r.append(end);
    r
}

proof fn lemma_bracket_ends()
    ensures
        "["@ == seq!['['],
        "]"@ == seq![']'],
{
    reveal_strlit("[");
    reveal_strlit("]");
    assert("["@ =~= seq!['[']);
    assert("]"@ =~= seq![']']);
}

/// Renders `value` as a Lua string literal.
pub fn lua_string(value: &str) -> (r: String)
    ensures
        r@ == lua_literal(value@),
        (value@.len() > 0 ==> value@[0] != '\n') && (forall|i: int|
            0 <= i < value@.len() ==> value@[i] != '\r') ==> lua_value(r@) == Some(value@),
{
    proof {
        lemma_bracket_ends();
    }
    let length = chars_of(value).len();
    let mut guarded = value.to_string();
    guarded.push(']');
    let mut level: usize = 0;
    while level < length && contains(guarded.as_str(), bracket("]", level).as_str())
        invariant
            "]"@ == seq![']'],
            length == value@.len(),
            guarded@ == value@.push(']'),
            level <= length,
            free_level(value@, level as nat) == free_level(value@, 0),
        decreases length - level,
    {
        level = level + 1;
    }
    proof {
        if (value@.len() > 0 ==> value@[0] != '\n') && (forall|i: int|
            0 <= i < value@.len() ==> value@[i] != '\r') {
            law_lua_reads_the_value_back(value@);
        }
    }
    let mut r = bracket("[", level);
    r.append(value);
    r.append(bracket("]", level).as_str());
    r
}

// ------------------------------------------------------------------
// Reading a literal
// ------------------------------------------------------------------
/// Line feed or carriage return.
pub open spec fn is_newline(c: char) -> bool {
    c == '\n' || c == '\r'
}

/// How many characters the newline at the front of `s` takes: two where both
/// characters follow each other, in either order.
pub open spec fn newline_width(s: Seq<char>) -> int {
    if s.len() > 1 && is_newline(s[1]) && s[1] != s[0] {
        2
    } else {
        1
    }
}

/// `s` with every newline turned into a line feed.
pub open spec fn line_feeds(s: Seq<char>) -> Seq<char>
    decreases s.len(),
{
    if s.len() == 0 {
        s
    } else if is_newline(s[0]) {
        seq!['\n'] + line_feeds(s.skip(newline_width(s)))
    } else {
        seq![s[0]] + line_feeds(s.skip(1))
    }
}

/// What Lua makes of the text between long brackets: a newline right behind
/// the opening one is dropped, and every other one is a line feed.
pub open spec fn lua_text(s: Seq<char>) -> Seq<char> {
    if s.len() > 0 && is_newline(s[0]) {
        line_feeds(s.skip(newline_width(s)))
    } else {
        line_feeds(s)
    }
}

/// How many equals signs stand at the front of `s`.
pub open spec fn equals_signs(s: Seq<char>) -> nat
    decreases s.len(),
{
    if s.len() > 0 && s[0] == '=' {
        1 + equals_signs(s.skip(1))
    } else {
        0
    }
}

/// The first position from `from` on at which `needle` stands in `hay`; the
/// length of `hay` where there is none.
pub open spec fn first_occurrence(hay: Seq<char>, needle: Seq<char>, from: int) -> int
    decreases hay.len() - from,
{
    if from >= hay.len() || occurs_at(hay, needle, from) {
        from
    } else {
        first_occurrence(hay, needle, from + 1)
    }
}

/// The string Lua reads from a long-bracket literal; `None` where `literal` is
/// not one such literal and nothing else.
pub open spec fn lua_value(literal: Seq<char>) -> Option<Seq<char>> {
    let level = equals_signs(literal.skip(1));
    if literal.len() > level + 1 && literal[0] == '[' && literal[level as int + 1] == '[' {
        let body = literal.skip(level as int + 2);
        let end = first_occurrence(body, closing(level), 0);
        if end + level + 2 == body.len() {
            Some(lua_text(body.take(end)))
        } else {
            None
        }
    } else {
        None
    }
}

proof fn lemma_line_feeds_alone(s: Seq<char>)
    requires
        forall|i: int| 0 <= i < s.len() ==> s[i] != '\r',
    ensures
        line_feeds(s) == s,
    decreases s.len(),
{
    if s.len() > 0 {
        let rest = s.skip(1);
        assert(newline_width(s) == 1 || !is_newline(s[0]));
        lemma_line_feeds_alone(rest);
        assert(seq![s[0]] + rest =~= s);
    }
}

proof fn lemma_equals_signs(level: nat, rest: Seq<char>)
    requires
        rest.len() > 0,
        rest[0] != '=',
    ensures
        equals_signs(repeated('=', level) + rest) == level,
    decreases level,
{
    let s = repeated('=', level) + rest;
    if level > 0 {
        assert(s.skip(1) =~= repeated('=', (level - 1) as nat) + rest);
        lemma_equals_signs((level - 1) as nat, rest);
    } else {
        assert(s =~= rest);
    }
}

proof fn lemma_first_occurrence(hay: Seq<char>, needle: Seq<char>, from: int, at: int)
    requires
        0 <= from <= at <= hay.len(),
        forall|i: int| from <= i < at ==> !occurs_at(hay, needle, i),
        occurs_at(hay, needle, at),
    ensures
        first_occurrence(hay, needle, from) == at,
    decreases at - from,
{
    if from < at {
        lemma_first_occurrence(hay, needle, from + 1, at);
    }
}

/// The chosen closing bracket does not stand in the guarded value.
proof fn lemma_free_level(value: Seq<char>, level: nat)
    ensures
        !has_substring(value.push(']'), closing(free_level(value, level))),
    decreases value.len() - level,
{
    if level < value.len() && has_substring(value.push(']'), closing(level)) {
        lemma_free_level(value, level + 1);
    } else if level >= value.len() {
        assert(closing(level).len() == level + 2);
        assert forall|at: int| !occurs_at(value.push(']'), closing(level), at) by {}
    }
}

/// Every lower level was taken.
proof fn lemma_lower_levels(value: Seq<char>, from: nat, level: nat)
    requires
        from <= level < free_level(value, from),
    ensures
        has_substring(value.push(']'), closing(level)),
    decreases value.len() - from,
{
    if from < level {
        lemma_lower_levels(value, from + 1, level);
    }
}

/// A closing bracket that is met before the end of the value stands in the
/// guarded value: one that reached further would need an equals sign or its
/// last character where the second character of the real one is.
proof fn lemma_met_early(value: Seq<char>, level: nat, at: int)
    requires
        0 <= at < value.len(),
        occurs_at(value + closing(level), closing(level), at),
    ensures
        has_substring(value.push(']'), closing(level)),
{
    let close = closing(level);
    let body = value + close;
    let guarded = value.push(']');
    let found = body.subrange(at, at + close.len());
    assert(found == close);
    let inside = value.len() - at;
    if inside < level + 1 {
        assert(found[inside] == body[value.len() as int]);
        assert(close[inside] == '=');
        assert(close[0] == ']');
        assert(false);
    }
    assert(at + close.len() <= guarded.len());
    assert forall|k: int| 0 <= k < close.len() implies #[trigger] guarded.subrange(
        at,
        at + close.len(),
    )[k] == close[k] by {
        assert(found[k] == body[at + k]);
        assert(guarded[at + k] == body[at + k]);
    }
    assert(guarded.subrange(at, at + close.len()) =~= close);
    assert(occurs_at(guarded, close, at));
}

/// The literal is as short as it can be: its closing bracket is met nowhere
/// before the end of the value, and that of every lower level is.
pub proof fn law_delimiter_is_the_shortest_free_one(value: Seq<char>, lower: nat)
    ensures
        ({
            let close = closing(free_level(value, 0));
            forall|at: int| 0 <= at < value.len() ==> !occurs_at(value + close, close, at)
        }),
        lower < free_level(value, 0) ==> exists|at: int|
            0 <= at < value.len() && occurs_at(value + closing(lower), closing(lower), at),
{
    let level = free_level(value, 0);
    let close = closing(level);
    lemma_free_level(value, 0);
    assert forall|at: int| 0 <= at < value.len() implies !occurs_at(value + close, close, at) by {
        if occurs_at(value + close, close, at) {
            lemma_met_early(value, level, at);
        }
    }
    if lower < level {
        lemma_lower_levels(value, 0, lower);
        let wanted = closing(lower);
        let guarded = value.push(']');
        let body = value + wanted;
        let at = choose|at: int| occurs_at(guarded, wanted, at);
        assert(guarded.subrange(at, at + wanted.len()) == wanted);
        assert(body.subrange(at, at + wanted.len()) =~= guarded.subrange(at, at + wanted.len()));
        assert(occurs_at(body, wanted, at));
    }
}

/// Lua reads back from a literal the very string it was made of. Not so for a
/// string that begins with a line feed or holds a carriage return: Lua changes
/// both inside long brackets.
pub proof fn law_lua_reads_the_value_back(value: Seq<char>)
    requires
        value.len() > 0 ==> value[0] != '\n',
        forall|i: int| 0 <= i < value.len() ==> value[i] != '\r',
    ensures
        lua_value(lua_literal(value)) == Some(value),
{
    let level = free_level(value, 0);
    let close = closing(level);
    let literal = lua_literal(value);
    let inner = seq!['['] + value + close;
    assert(literal.skip(1) =~= repeated('=', level) + inner);
    lemma_equals_signs(level, inner);
    assert(literal[level as int + 1] == '[');
    let body = value + close;
    assert(literal.skip((level + 2) as int) =~= body);
    law_delimiter_is_the_shortest_free_one(value, 0);
    assert(body.subrange(value.len() as int, value.len() as int + close.len()) =~= close);
    lemma_first_occurrence(body, close, 0, value.len() as int);
    assert(body.take(value.len() as int) =~= value);
    lemma_line_feeds_alone(value);
}

} // verus!
