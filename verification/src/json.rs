//! How a reader of JSON takes the objects that are sent: names with numbers or
//! texts, nothing else.

use vstd::prelude::*;
use crate::escape;
use crate::number;
use crate::text;

verus! {

/// A value in a JSON object.
pub enum Value {
    Number(nat),
    Text(Seq<char>),
}

/// Where a JSON string ends, given what follows its opening quote: at the first
/// quote that no backslash goes before, or with the text if there is none.
pub open spec fn string_end(s: Seq<char>) -> int
    decreases s.len(),
{
    if s.len() == 0 || s[0] == '"' {
        0
    } else if s[0] == '\\' && s.len() > 1 {
        2 + string_end(s.skip(2))
    } else {
        1 + string_end(s.drop_first())
    }
}

/// How many digits `s` begins with.
pub open spec fn digits_end(s: Seq<char>) -> int
    decreases s.len(),
{
    if s.len() > 0 && number::is_digit(s[0]) {
        1 + digits_end(s.drop_first())
    } else {
        0
    }
}

/// The JSON string that `s` begins with, and what follows it.
pub open spec fn read_string(s: Seq<char>) -> Option<(Seq<char>, Seq<char>)> {
    if s.len() == 0 || s[0] != '"' {
        None
    } else {
        let inside = s.drop_first();
        let end = string_end(inside);
        match escape::json_string_value(inside.take(end)) {
            Some(value) => if end < inside.len() {
                Some((value, inside.skip(end + 1)))
            } else {
                None
            },
            None => None,
        }
    }
}

/// The value that `s` begins with, a text or a number, and what follows it. A
/// number has no zero before its other digits.
pub open spec fn read_value(s: Seq<char>) -> Option<(Value, Seq<char>)> {
    let end = digits_end(s);
    if end == 1 || (end > 1 && s[0] != '0') {
        Some((Value::Number(number::number(s.take(end))), s.skip(end)))
    } else {
        match read_string(s) {
            Some((value, rest)) => Some((Value::Text(value), rest)),
            None => None,
        }
    }
}

/// The name and the value that `s` begins with, and what follows them.
pub open spec fn read_member(s: Seq<char>) -> Option<(Seq<char>, Value, Seq<char>)> {
    match read_string(s) {
        Some((name, rest)) => if rest.len() > 0 && rest[0] == ':' {
            match read_value(rest.drop_first()) {
                Some((value, rest)) => Some((name, value, rest)),
                None => None,
            }
        } else {
            None
        },
        None => None,
    }
}

/// The members of an object, given what follows its opening brace: separated by
/// commas, no name twice, up to the closing brace, which ends the text.
pub open spec fn read_members(s: Seq<char>) -> Option<Map<Seq<char>, Value>>
    decreases s.len(),
{
    match read_member(s) {
        Some((name, value, rest)) => if rest == seq!['}'] {
            Some(Map::empty().insert(name, value))
        } else if 0 < rest.len() < s.len() && rest[0] == ',' {
            match read_members(rest.drop_first()) {
                Some(others) => if others.contains_key(name) {
                    None
                } else {
                    Some(others.insert(name, value))
                },
                None => None,
            }
        } else {
            None
        },
        None => None,
    }
}

/// The members of the JSON object that `s` is, if it is one.
pub open spec fn object(s: Seq<char>) -> Option<Map<Seq<char>, Value>> {
    if s.len() > 0 && s[0] == '{' {
        read_members(s.drop_first())
    } else {
        None
    }
}

// ---------------------------------------------------------------------------
// Reading what is written
// ---------------------------------------------------------------------------

/// The text that remains of `s` in JSON: all but the control characters that are
/// neither line feed, carriage return nor tab.
pub open spec fn kept(s: Seq<char>) -> Seq<char> {
    s.filter(|c: char| !text::is_control(c) || c == '\n' || c == '\r' || c == '\t')
}

/// Tells whether a name can stand in quotes as it is.
pub open spec fn is_plain(name: Seq<char>) -> bool {
    forall|i: int|
        0 <= i < name.len() ==> #[trigger] name[i] != '"' && name[i] != '\\' && !text::is_control(
            name[i],
        )
}

/// A member whose value is a number.
pub open spec fn number_member(name: Seq<char>, n: nat) -> Seq<char> {
    seq!['"'] + name + seq!['"', ':'] + number::decimal(n)
}

/// A member whose value is a text.
pub open spec fn text_member(name: Seq<char>, value: Seq<char>) -> Seq<char> {
    seq!['"'] + name + seq!['"', ':', '"'] + escape::json_escaped(value) + seq!['"']
}

/// A text without quotes, backslashes and control characters stands in JSON as it
/// is.
pub proof fn law_plain_text_stays(name: Seq<char>)
    requires
        is_plain(name),
    ensures
        escape::json_escaped(name) == name,
        kept(name) == name,
    decreases name.len(),
{
    escape::law_json_keeps_all_but_controls(name);
    if name.len() > 0 {
        let rest = name.drop_first();
        assert forall|i: int| 0 <= i < rest.len() implies #[trigger] rest[i] != '"' && rest[i]
            != '\\' && !text::is_control(rest[i]) by {
            assert(rest[i] == name[i + 1]);
        }
        law_plain_text_stays(rest);
        let c = name[0];
        assert(c != '"' && c != '\\' && !text::is_control(c));
        assert(escape::json_escaped(name) =~= name);
    } else {
        assert(escape::json_escaped(name) =~= name);
    }
    escape::law_clean_text_in_json(name);
}

proof fn lemma_string_end(value: Seq<char>, tail: Seq<char>)
    ensures
        string_end(escape::json_escaped(value) + seq!['"'] + tail) == escape::json_escaped(
            value,
        ).len(),
    decreases value.len(),
{
    reveal_strlit("\\\\");
    reveal_strlit("\\\"");
    reveal_strlit("\\n");
    reveal_strlit("\\r");
    reveal_strlit("\\t");
    let all = escape::json_escaped(value) + seq!['"'] + tail;
    if value.len() == 0 {
        assert(all[0] == '"');
    } else {
        let rest = escape::json_escaped(value.drop_first()) + seq!['"'] + tail;
        lemma_string_end(value.drop_first(), tail);
        let head = escape::json_char(value[0]);
        assert(all =~= head + rest);
        if head.len() == 1 {
            assert(all.drop_first() =~= rest);
        } else if head.len() == 2 {
            assert(all.skip(2) =~= rest);
        } else {
            assert(all =~= rest);
        }
    }
}

/// A text in quotes, escaped, is read as the text, and what follows it is left.
pub proof fn law_string_is_read(value: Seq<char>, tail: Seq<char>)
    ensures
        read_string(seq!['"'] + escape::json_escaped(value) + seq!['"'] + tail) == Some(
            (kept(value), tail),
        ),
{
    let s = seq!['"'] + escape::json_escaped(value) + seq!['"'] + tail;
    let inside = escape::json_escaped(value) + seq!['"'] + tail;
    assert(s.drop_first() =~= inside);
    lemma_string_end(value, tail);
    let end = escape::json_escaped(value).len() as int;
    assert(inside.take(end) =~= escape::json_escaped(value));
    assert(inside.skip(end + 1) =~= tail);
    escape::law_json_keeps_all_but_controls(value);
}

proof fn lemma_digits_end(digits: Seq<char>, tail: Seq<char>)
    requires
        forall|i: int| 0 <= i < digits.len() ==> number::is_digit(#[trigger] digits[i]),
        tail.len() > 0 ==> !number::is_digit(tail[0]),
    ensures
        digits_end(digits + tail) == digits.len(),
    decreases digits.len(),
{
    let s = digits + tail;
    if digits.len() == 0 {
        assert(s =~= tail);
    } else {
        let rest = digits.drop_first();
        assert(number::is_digit(digits[0]));
        assert forall|i: int| 0 <= i < rest.len() implies number::is_digit(#[trigger] rest[i]) by {
            assert(rest[i] == digits[i + 1]);
        }
        lemma_digits_end(rest, tail);
        assert(s.drop_first() =~= rest + tail);
    }
}

/// A number in decimal is read as the number, and what follows it is left.
pub proof fn law_number_is_read(n: nat, tail: Seq<char>)
    requires
        tail.len() > 0 ==> !number::is_digit(tail[0]),
    ensures
        read_value(number::decimal(n) + tail) == Some((Value::Number(n), tail)),
{
    let digits = number::decimal(n);
    number::law_decimal_is_plain(n);
    lemma_digits_end(digits, tail);
    assert((digits + tail).take(digits.len() as int) =~= digits);
    assert((digits + tail).skip(digits.len() as int) =~= tail);
    assert((digits + tail)[0] == digits[0]);
}

/// A member with a number is read as it was meant.
pub proof fn law_number_member_is_read(name: Seq<char>, n: nat, tail: Seq<char>)
    requires
        is_plain(name),
        tail.len() > 0 ==> !number::is_digit(tail[0]),
    ensures
        read_member(number_member(name, n) + tail) == Some((name, Value::Number(n), tail)),
{
    let value = number::decimal(n) + tail;
    let rest = seq![':'] + value;
    law_plain_text_stays(name);
    assert(number_member(name, n) + tail =~= seq!['"'] + name + seq!['"'] + rest);
    law_string_is_read(name, rest);
    assert(rest.drop_first() =~= value);
    law_number_is_read(n, tail);
}

/// A member with a text is read as it was meant.
pub proof fn law_text_member_is_read(name: Seq<char>, value: Seq<char>, tail: Seq<char>)
    requires
        is_plain(name),
    ensures
        read_member(text_member(name, value) + tail) == Some(
            (name, Value::Text(kept(value)), tail),
        ),
{
    let inside = seq!['"'] + escape::json_escaped(value) + seq!['"'] + tail;
    let rest = seq![':'] + inside;
    law_plain_text_stays(name);
    assert(text_member(name, value) + tail =~= seq!['"'] + escape::json_escaped(name) + seq!['"']
        + rest);
    law_string_is_read(name, rest);
    assert(rest.drop_first() =~= inside);
    law_string_is_read(value, tail);
    assert(digits_end(inside) == 0);
}

/// A member and a comma before further members are read as one member more.
pub proof fn law_further_members(
    member: Seq<char>,
    name: Seq<char>,
    value: Value,
    others: Seq<char>,
    known: Map<Seq<char>, Value>,
)
    requires
        read_member(member + (seq![','] + others)) == Some((name, value, seq![','] + others)),
        member.len() > 0,
        others.len() > 0,
        read_members(others) == Some(known),
        !known.contains_key(name),
    ensures
        read_members(member + (seq![','] + others)) == Some(known.insert(name, value)),
{
    let rest = seq![','] + others;
    assert(rest.drop_first() =~= others);
    assert(rest[0] == ',');
}

} // verus!
