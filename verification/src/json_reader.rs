//! How a JSON object of strings and integers is read.

use vstd::prelude::*;

use crate::json::{
    comma_separated, digits, json_escape, json_escaped, json_integer, json_object, json_quoted,
    member_parts,
};

verus! {

/// A JSON string or integer.
pub enum Scalar {
    Text(Seq<char>),
    Number(int),
}

/// The value of a decimal digit.
pub open spec fn digit_value(c: char) -> Option<int> {
    if '0' <= c && c <= '9' {
        Some(c as int - '0' as int)
    } else {
        None
    }
}

/// The value of a lower case hexadecimal digit.
pub open spec fn hex_value(c: char) -> Option<int> {
    if '0' <= c && c <= '9' {
        Some(c as int - '0' as int)
    } else if 'a' <= c && c <= 'f' {
        Some(c as int - 'a' as int + 10)
    } else {
        None
    }
}

/// Reads the decimal digits at the start of `text`, after digits with the value `before`, and
/// gives their value and what follows them.
pub open spec fn read_digits(before: int, text: Seq<char>) -> (int, Seq<char>)
    decreases text.len(),
{
    if text.len() == 0 {
        (before, text)
    } else {
        match digit_value(text[0]) {
            Some(digit) => read_digits(10 * before + digit, text.drop_first()),
            None => (before, text),
        }
    }
}

/// Reads an integer at the start of `text`, and gives what follows it.
pub open spec fn read_integer(text: Seq<char>) -> Option<(int, Seq<char>)> {
    if text.len() > 0 && digit_value(text[0]) is Some {
        Some(read_digits(0, text))
    } else if text.len() > 1 && text[0] == '-' && digit_value(text[1]) is Some {
        let (value, rest) = read_digits(0, text.drop_first());
        Some((-value, rest))
    } else {
        None
    }
}

/// Reads one character of a JSON string at the start of `text`, and gives how many characters it
/// takes there.
pub open spec fn read_character(text: Seq<char>) -> Option<(char, int)> {
    if text.len() == 0 || (text[0] as int) < 32 || text[0] == '"' {
        None
    } else if text[0] != '\\' {
        Some((text[0], 1))
    } else if text.len() < 2 {
        None
    } else if text[1] == '"' || text[1] == '\\' || text[1] == '/' {
        Some((text[1], 2))
    } else if text[1] == 'b' {
        Some((8 as char, 2))
    } else if text[1] == 't' {
        Some(('\t', 2))
    } else if text[1] == 'n' {
        Some(('\n', 2))
    } else if text[1] == 'f' {
        Some((12 as char, 2))
    } else if text[1] == 'r' {
        Some(('\r', 2))
    } else if text.len() < 6 || text[1] != 'u' || text[2] != '0' || text[3] != '0' {
        None
    } else {
        match (hex_value(text[4]), hex_value(text[5])) {
            (Some(high), Some(low)) => Some(((16 * high + low) as char, 6)),
            _ => None,
        }
    }
}

/// Reads the characters of a JSON string up to its closing quotation mark, and gives what follows
/// that.
pub open spec fn read_characters(text: Seq<char>) -> Option<(Seq<char>, Seq<char>)>
    decreases text.len(),
{
    if text.len() > 0 && text[0] == '"' {
        Some((seq![], text.drop_first()))
    } else {
        match read_character(text) {
            Some((c, taken)) => if 0 < taken <= text.len() {
                match read_characters(text.skip(taken)) {
                    Some((characters, rest)) => Some((seq![c] + characters, rest)),
                    None => None,
                }
            } else {
                None
            },
            None => None,
        }
    }
}

/// Reads a JSON string at the start of `text`, and gives what follows it.
pub open spec fn read_string(text: Seq<char>) -> Option<(Seq<char>, Seq<char>)> {
    if text.len() > 0 && text[0] == '"' {
        read_characters(text.drop_first())
    } else {
        None
    }
}

/// Reads a JSON string or integer at the start of `text`, and gives what follows it.
pub open spec fn read_scalar(text: Seq<char>) -> Option<(Scalar, Seq<char>)> {
    match (read_string(text), read_integer(text)) {
        (Some((characters, rest)), _) => Some((Scalar::Text(characters), rest)),
        (None, Some((value, rest))) => Some((Scalar::Number(value), rest)),
        (None, None) => None,
    }
}

/// Reads a key, a colon and a value at the start of `text`, and gives what follows them.
pub open spec fn read_member(text: Seq<char>) -> Option<((Seq<char>, Scalar), Seq<char>)> {
    match read_string(text) {
        Some((key, rest)) => if rest.len() > 0 && rest[0] == ':' {
            match read_scalar(rest.drop_first()) {
                Some((value, after)) => Some(((key, value), after)),
                None => None,
            }
        } else {
            None
        },
        None => None,
    }
}

/// Reads members with commas between them up to a closing brace that ends `text`.
pub open spec fn read_members(text: Seq<char>) -> Option<Seq<(Seq<char>, Scalar)>>
    decreases text.len(),
{
    match read_member(text) {
        Some((member, rest)) => if rest == seq!['}'] {
            Some(seq![member])
        } else if 0 < rest.len() < text.len() && rest[0] == ',' {
            match read_members(rest.drop_first()) {
                Some(members) => Some(seq![member] + members),
                None => None,
            }
        } else {
            None
        },
        None => None,
    }
}

/// The members of the JSON object that `text` is, in their order: strings and integers under their
/// keys, without space between them.
pub open spec fn read_object(text: Seq<char>) -> Option<Seq<(Seq<char>, Scalar)>> {
    if text.len() > 0 && text[0] == '{' {
        read_members(text.drop_first())
    } else {
        None
    }
}

/// The JSON text of a string or an integer.
spec fn scalar_text(value: Scalar) -> Seq<char> {
    match value {
        Scalar::Text(text) => json_quoted(text),
        Scalar::Number(n) => json_integer(n),
    }
}

/// Digits that are written are read as the number they were written for.
proof fn lemma_digits_are_read(before: int, n: nat, rest: Seq<char>)
    ensures
        digits(n).len() > 0,
        digit_value(digits(n)[0]) is Some,
        exists|shifted: int|
            read_digits(before, digits(n) + rest) == #[trigger] read_digits(shifted + n, rest) && (
            before == 0 ==> shifted == 0),
    decreases n,
{
    if n < 10 {
        let text = digits(n) + rest;
        assert(text.drop_first() =~= rest);
        assert(text[0] == digits(n)[0]);
        assert(digit_value(text[0]) == Some(n as int));
        assert(read_digits(before, text) == read_digits(10 * before + n, rest));
    } else {
        let last = ('0' as int + n % 10) as char;
        let tail = seq![last] + rest;
        lemma_digits_are_read(before, n / 10, tail);
        assert(digits(n) + rest =~= digits(n / 10) + tail);
        let shifted = choose|shifted: int|
            read_digits(before, digits(n / 10) + tail) == #[trigger] read_digits(
                shifted + n / 10,
                tail,
            ) && (before == 0 ==> shifted == 0);
        assert(tail.drop_first() =~= rest);
        assert(digit_value(tail[0]) == Some((n % 10) as int));
        assert(10 * (shifted + n / 10) + n % 10 == 10 * shifted + n);
        assert(read_digits(shifted + n / 10, tail) == read_digits(10 * shifted + n, rest));
        assert(digits(n)[0] == digits(n / 10)[0]);
    }
}

/// An integer that is written is read back, where no digit follows.
proof fn lemma_integer_is_read(n: int, rest: Seq<char>)
    requires
        rest.len() > 0 ==> digit_value(rest[0]) is None,
    ensures
        read_integer(json_integer(n) + rest) == Some((n, rest)),
{
    let m = if n < 0 {
        (-n) as nat
    } else {
        n as nat
    };
    let text = json_integer(n) + rest;
    lemma_digits_are_read(0, m, rest);
    assert(read_digits(0, digits(m) + rest) == read_digits(m as int, rest));
    assert(read_digits(m as int, rest) == (m as int, rest));
    if n < 0 {
        assert(text.drop_first() =~= digits(m) + rest);
        assert(text[0] == '-' && text[1] == digits(m)[0]);
    } else {
        assert(text =~= digits(m) + rest);
        assert(text[0] == digits(m)[0]);
    }
}

/// A character that is escaped is read back.
proof fn lemma_character_is_read(c: char, rest: Seq<char>)
    ensures
        (json_escape(c) + rest).skip(json_escape(c).len() as int) == rest,
        read_character(json_escape(c) + rest) == Some((c, json_escape(c).len() as int)),
        (json_escape(c) + rest)[0] != '"',
{
    let text = json_escape(c) + rest;
    assert(text.skip(json_escape(c).len() as int) =~= rest);
    assert(forall|i: int| 0 <= i < json_escape(c).len() ==> text[i] == json_escape(c)[i]);
    let code = c as int;
    if code < 32 && code != 8 && code != 9 && code != 10 && code != 12 && code != 13 {
        assert(hex_value(text[4]) == Some(code / 16));
        assert(hex_value(text[5]) == Some(code % 16));
        assert((16 * (code / 16) + code % 16) as char == c);
    }
}

/// A text that is escaped is read back up to the closing quotation mark.
proof fn lemma_characters_are_read(text: Seq<char>, rest: Seq<char>)
    ensures
        read_characters(json_escaped(text) + seq!['"'] + rest) == Some((text, rest)),
    decreases text.len(),
{
    let written = json_escaped(text) + seq!['"'] + rest;
    if text.len() == 0 {
        assert(written[0] == '"');
        assert(written.drop_first() =~= rest);
        assert(text =~= seq![]);
    } else {
        let tail = json_escaped(text.drop_first()) + seq!['"'] + rest;
        assert(written =~= json_escape(text[0]) + tail);
        lemma_character_is_read(text[0], tail);
        lemma_characters_are_read(text.drop_first(), rest);
        assert(text =~= seq![text[0]] + text.drop_first());
    }
}

/// A string that is written is read back.
proof fn lemma_string_is_read(text: Seq<char>, rest: Seq<char>)
    ensures
        read_string(json_quoted(text) + rest) == Some((text, rest)),
{
    let written = json_quoted(text) + rest;
    lemma_characters_are_read(text, rest);
    assert(written.drop_first() =~= json_escaped(text) + seq!['"'] + rest);
}

/// A string or an integer that is written is read back, where no digit follows.
proof fn lemma_scalar_is_read(value: Scalar, rest: Seq<char>)
    requires
        rest.len() > 0 ==> digit_value(rest[0]) is None,
    ensures
        read_scalar(scalar_text(value) + rest) == Some((value, rest)),
{
    match value {
        Scalar::Text(text) => lemma_string_is_read(text, rest),
        Scalar::Number(n) => {
            lemma_integer_is_read(n, rest);
            lemma_digits_are_read(
                0,
                if n < 0 {
                    (-n) as nat
                } else {
                    n as nat
                },
                rest,
            );
            assert((json_integer(n) + rest)[0] == json_integer(n)[0]);
            assert(json_integer(n)[0] != '"');
        },
    }
}

/// Members that are written are read back.
proof fn lemma_members_are_read(
    members: Seq<(Seq<char>, Seq<char>)>,
    values: Seq<(Seq<char>, Scalar)>,
)
    requires
        members.len() == values.len() > 0,
        forall|i: int|
            0 <= i < members.len() ==> (#[trigger] members[i]).0 == values[i].0 && members[i].1
                == scalar_text(values[i].1),
    ensures
        read_members(comma_separated(member_parts(members)) + seq!['}']) == Some(values),
    decreases members.len(),
{
    let parts = member_parts(members);
    let text = comma_separated(parts) + seq!['}'];
    let tail = members.drop_first();
    assert(members[0].0 == values[0].0);
    assert(parts.drop_first() =~= member_parts(tail));
    let rest = if members.len() == 1 {
        seq!['}']
    } else {
        seq![','] + comma_separated(member_parts(tail)) + seq!['}']
    };
    let value = scalar_text(values[0].1) + rest;
    let after_key = seq![':'] + value;
    assert(text =~= json_quoted(values[0].0) + after_key);
    lemma_string_is_read(values[0].0, after_key);
    assert(after_key.drop_first() =~= value);
    lemma_scalar_is_read(values[0].1, rest);
    assert(read_member(text) == Some((values[0], rest)));
    if members.len() == 1 {
        assert(values =~= seq![values[0]]);
    } else {
        assert(rest.drop_first() =~= comma_separated(member_parts(tail)) + seq!['}']);
        lemma_members_are_read(tail, values.drop_first());
        assert(values =~= seq![values[0]] + values.drop_first());
        assert(rest != seq!['}']) by {
            assert(rest[0] == ',');
        }
    }
}

/// An object that is written is read back.
pub(crate) proof fn lemma_object_is_read(
    members: Seq<(Seq<char>, Seq<char>)>,
    values: Seq<(Seq<char>, Scalar)>,
)
    requires
        members.len() == values.len() > 0,
        forall|i: int|
            0 <= i < members.len() ==> (#[trigger] members[i]).0 == values[i].0 && match values[i].1 {
                Scalar::Text(text) => members[i].1 == json_quoted(text),
                Scalar::Number(n) => members[i].1 == json_integer(n),
            },
    ensures
        read_object(json_object(members)) == Some(values),
{
    lemma_members_are_read(members, values);
    assert(json_object(members).drop_first() =~= comma_separated(member_parts(members))
        + seq!['}']);
}

} // verus!
