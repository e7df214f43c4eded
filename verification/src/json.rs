//! JSON texts.

use serde_json::Value;
use vstd::prelude::*;
use vstd::utf8::is_ascii_chars;

use crate::decimal::ten_to;

verus! {

/// A JSON value of `serde_json`.
#[verifier::external_type_specification]
#[verifier::external_body]
pub struct ExValue(Value);

/// The map behind a JSON object of `serde_json`.
#[verifier::external_type_specification]
#[verifier::external_body]
#[verifier::reject_recursive_types(K)]
#[verifier::reject_recursive_types(V)]
pub struct ExJsonMap<K, V>(serde_json::Map<K, V>);

/// The compact JSON text of a value.
pub uninterp spec fn json_text(value: Value) -> Seq<char>;

/// The members of an object: under each key the compact JSON text of its value.
pub uninterp spec fn json_members(object: serde_json::Map<String, Value>) -> Map<Seq<char>, Seq<char>>;

/// The lower case hexadecimal digit of a number below sixteen.
pub open spec fn hex_digit(n: int) -> char {
    if n < 10 {
        ('0' as int + n) as char
    } else {
        ('a' as int + n - 10) as char
    }
}

/// How a character is written inside a JSON string.
pub open spec fn json_escape(c: char) -> Seq<char> {
    if c == '"' {
        seq!['\\', '"']
    } else if c == '\\' {
        seq!['\\', '\\']
    } else if c as int == 8 {
        seq!['\\', 'b']
    } else if c as int == 9 {
        seq!['\\', 't']
    } else if c as int == 10 {
        seq!['\\', 'n']
    } else if c as int == 12 {
        seq!['\\', 'f']
    } else if c as int == 13 {
        seq!['\\', 'r']
    } else if (c as int) < 32 {
        seq!['\\', 'u', '0', '0', hex_digit(c as int / 16), hex_digit(c as int % 16)]
    } else {
        seq![c]
    }
}

/// The characters of `text`, escaped one by one.
pub open spec fn json_escaped(text: Seq<char>) -> Seq<char>
    decreases text.len(),
{
    if text.len() == 0 {
        seq![]
    } else {
        json_escape(text[0]) + json_escaped(text.drop_first())
    }
}

/// `text` as a JSON string.
pub open spec fn json_quoted(text: Seq<char>) -> Seq<char> {
    seq!['"'] + json_escaped(text) + seq!['"']
}

/// The decimal digits of a natural number, without leading zeros.
pub open spec fn digits(n: nat) -> Seq<char>
    decreases n,
{
    if n < 10 {
        seq![('0' as int + n) as char]
    } else {
        digits(n / 10).push(('0' as int + n % 10) as char)
    }
}

/// `n` as a JSON number.
pub open spec fn json_integer(n: int) -> Seq<char> {
    if n < 0 {
        seq!['-'] + digits((-n) as nat)
    } else {
        digits(n as nat)
    }
}

/// The texts `parts` with a comma between each two.
pub open spec fn comma_separated(parts: Seq<Seq<char>>) -> Seq<char>
    decreases parts.len(),
{
    if parts.len() == 0 {
        seq![]
    } else if parts.len() == 1 {
        parts[0]
    } else {
        parts[0] + seq![','] + comma_separated(parts.drop_first())
    }
}

/// A JSON array of the given element texts.
pub open spec fn json_array(elements: Seq<Seq<char>>) -> Seq<char> {
    seq!['['] + comma_separated(elements) + seq![']']
}

/// The texts of members, each a key and the JSON text of its value.
pub open spec fn member_parts(members: Seq<(Seq<char>, Seq<char>)>) -> Seq<Seq<char>> {
    Seq::new(members.len(), |i: int| json_quoted(members[i].0) + seq![':'] + members[i].1)
}

/// A JSON object of the given members, in this order.
pub open spec fn json_object(members: Seq<(Seq<char>, Seq<char>)>) -> Seq<char> {
    seq!['{'] + comma_separated(member_parts(members)) + seq!['}']
}

/// Whether `a` comes before `b` in the order of strings: the first difference decides, and a
/// prefix comes first.
pub open spec fn text_before(a: Seq<char>, b: Seq<char>) -> bool
    decreases a.len(),
{
    if b.len() == 0 {
        false
    } else if a.len() == 0 {
        true
    } else if a[0] == b[0] {
        text_before(a.drop_first(), b.drop_first())
    } else {
        a[0] < b[0]
    }
}

/// Whether the keys of `members` are distinct and in ascending order.
pub open spec fn in_key_order(members: Seq<(Seq<char>, Seq<char>)>) -> bool {
    forall|i: int, j: int|
        0 <= i < j < members.len() ==> text_before(#[trigger] members[i].0, #[trigger] members[j].0)
}

/// Whether `members` lists exactly the entries of `map`.
pub open spec fn lists_members(
    members: Seq<(Seq<char>, Seq<char>)>,
    map: Map<Seq<char>, Seq<char>>,
) -> bool {
    &&& forall|i: int|
        0 <= i < members.len() ==> {
            &&& map.dom().contains((#[trigger] members[i]).0)
            &&& map[members[i].0] == members[i].1
        }
    &&& forall|key: Seq<char>| #[trigger]
        map.dom().contains(key) ==> exists|i: int|
            0 <= i < members.len() && (#[trigger] members[i]).0 == key
}

/// Whether `text` is the JSON object of the entries of `map`, in the order of their keys.
pub open spec fn is_object_text(text: Seq<char>, map: Map<Seq<char>, Seq<char>>) -> bool {
    exists|members: Seq<(Seq<char>, Seq<char>)>|
        in_key_order(members) && lists_members(members, map) && text == #[trigger] json_object(
            members,
        )
}

/// Calls `Value::from` on a string, which makes a JSON string of it.
#[verifier::external_body]
pub(crate) fn string_value(text: &str) -> (value: Value)
    ensures
        json_text(value) == json_quoted(text@),
{
    Value::from(text)
}

/// Calls `Value::from` on an `i32`, which makes a JSON number of it.
#[verifier::external_body]
pub(crate) fn integer_value(n: i32) -> (value: Value)
    ensures
        json_text(value) == json_integer(n as int),
{
    Value::from(n)
}

/// Calls `Value::from` on a vector, which makes a JSON array of its values, in their order.
#[verifier::external_body]
pub(crate) fn array_value(elements: Vec<Value>) -> (value: Value)
    ensures
        json_text(value) == json_array(elements@.map_values(|v: Value| json_text(v))),
{
    Value::from(elements)
}

/// Calls `serde_json::Map::new`, which makes a map without members.
#[verifier::external_body]
fn no_members() -> (object: serde_json::Map<String, Value>)
    ensures
        (json_members(object) == Map::<Seq<char>, Seq<char>>::empty()),
{
    serde_json::Map::new()
}

/// Calls `serde_json::Map::insert`, which puts the value under the key, in place of one that
/// stood there.
#[verifier::external_body]
fn insert_member(object: &mut serde_json::Map<String, Value>, key: &str, value: Value)
    ensures
        json_members(*final(object)) == json_members(*old(object)).insert(key@, json_text(value)),
{
    object.insert(key.to_string(), value);
}

/// Calls `Value::from` on a map, which makes a JSON object of it. The map is a `BTreeMap`, as
/// long as the feature `preserve_order` of `serde_json` is off, so the members are written in the
/// order of their keys.
#[verifier::external_body]
fn object_value(object: serde_json::Map<String, Value>) -> (value: Value)
    ensures
        is_object_text(json_text(value), json_members(object)),
{
    Value::from(object)
}

/// Calls `to_string` on a value, which writes its compact JSON text.
#[verifier::external_body]
fn value_text(value: &Value) -> (text: String)
    ensures
        text@ == json_text(*value),
{
    value.to_string()
}

/// No text comes both before and after another.
proof fn lemma_text_before_asymmetric(a: Seq<char>, b: Seq<char>)
    requires
        text_before(a, b),
    ensures
        !text_before(b, a),
    decreases a.len(),
{
    if a.len() > 0 && a[0] == b[0] {
        lemma_text_before_asymmetric(a.drop_first(), b.drop_first());
    }
}

/// The order of texts is transitive.
proof fn lemma_text_before_transitive(a: Seq<char>, b: Seq<char>, c: Seq<char>)
    requires
        text_before(a, b),
        text_before(b, c),
    ensures
        text_before(a, c),
    decreases a.len(),
{
    if a.len() > 0 && a[0] == b[0] && b[0] == c[0] {
        lemma_text_before_transitive(a.drop_first(), b.drop_first(), c.drop_first());
    }
}

/// A map has one listing in the order of its keys.
proof fn lemma_ordered_listing_unique(
    a: Seq<(Seq<char>, Seq<char>)>,
    b: Seq<(Seq<char>, Seq<char>)>,
    map: Map<Seq<char>, Seq<char>>,
)
    requires
        in_key_order(a),
        in_key_order(b),
        lists_members(a, map),
        lists_members(b, map),
    ensures
        a == b,
    decreases a.len(),
{
    if a.len() == 0 {
        if b.len() > 0 {
            assert(map.dom().contains(b[0].0));
        }
        assert(a =~= b);
    } else {
        assert(map.dom().contains(a[0].0));
        let j = choose|j: int| 0 <= j < b.len() && (#[trigger] b[j]).0 == a[0].0;
        assert(map.dom().contains(b[0].0));
        let i = choose|i: int| 0 <= i < a.len() && (#[trigger] a[i]).0 == b[0].0;
        if i > 0 && j > 0 {
            assert(text_before(a[0].0, a[i].0));
            assert(text_before(b[0].0, b[j].0));
            lemma_text_before_asymmetric(a[0].0, b[0].0);
        }
        assert(a[0] == b[0]);
        lemma_listing_tail(a, map);
        lemma_listing_tail(b, map);
        lemma_ordered_listing_unique(a.drop_first(), b.drop_first(), map.remove(a[0].0));
        assert(a =~= seq![a[0]] + a.drop_first());
        assert(b =~= seq![b[0]] + b.drop_first());
    }
}

/// Without its first member a listing lists the map without that member's key.
proof fn lemma_listing_tail(
    members: Seq<(Seq<char>, Seq<char>)>,
    map: Map<Seq<char>, Seq<char>>,
)
    requires
        members.len() > 0,
        in_key_order(members),
        lists_members(members, map),
    ensures
        in_key_order(members.drop_first()),
        lists_members(members.drop_first(), map.remove(members[0].0)),
{
    let first = members[0].0;
    let tail = members.drop_first();
    assert forall|i: int| 0 <= i < tail.len() implies {
        &&& map.remove(first).dom().contains((#[trigger] tail[i]).0)
        &&& map.remove(first)[tail[i].0] == tail[i].1
    } by {
        assert(tail[i] == members[i + 1]);
        assert(text_before(members[0].0, members[i + 1].0));
        if members[i + 1].0 == first {
            lemma_text_before_asymmetric(first, first);
        }
    }
    assert forall|key: Seq<char>| #[trigger]
        map.remove(first).dom().contains(key) implies exists|i: int|
        0 <= i < tail.len() && (#[trigger] tail[i]).0 == key by {
        assert(map.dom().contains(key));
        let i = choose|i: int| 0 <= i < members.len() && (#[trigger] members[i]).0 == key;
        assert(tail[i - 1] == members[i]);
    }
    assert forall|i: int, j: int| 0 <= i < j < tail.len() implies text_before(
        #[trigger] tail[i].0,
        #[trigger] tail[j].0,
    ) by {
        assert(tail[i] == members[i + 1] && tail[j] == members[j + 1]);
    }
}

/// The keys and JSON texts of the members that an object is made from.
pub open spec fn member_texts(members: Seq<(&'static str, Value)>) -> Seq<(Seq<char>, Seq<char>)> {
    Seq::new(members.len(), |i: int| (members[i].0@, json_text(members[i].1)))
}

/// Adds a member whose key comes after those that are there.
pub(crate) fn add_member(members: &mut Vec<(&'static str, Value)>, key: &'static str, value: Value)
    requires
        in_key_order(member_texts(old(members)@)),
        old(members)@.len() > 0 ==> text_before(old(members)@.last().0@, key@),
    ensures
        in_key_order(member_texts(final(members)@)),
        final(members)@ == old(members)@.push((key, value)),
        member_texts(final(members)@) == member_texts(old(members)@).push((key@, json_text(value))),
{
    let ghost before = member_texts(members@);
    members.push((key, value));
    proof {
        let after = member_texts(members@);
        assert(after =~= before.push((key@, json_text(value))));
        let last = before.len() - 1;
        assert forall|i: int, j: int| 0 <= i < j < after.len() implies text_before(
            #[trigger] after[i].0,
            #[trigger] after[j].0,
        ) by {
            if j < before.len() {
                assert(after[i] == before[i] && after[j] == before[j]);
            } else if i < last {
                assert(text_before(before[i].0, before[last].0));
                lemma_text_before_transitive(after[i].0, before[last].0, after[j].0);
            }
        }
    }
}

/// The compact JSON text of the object of `members`.
pub(crate) fn object_text(members: Vec<(&'static str, Value)>) -> (text: String)
    requires
        in_key_order(member_texts(members@)),
    ensures
        text@ == json_object(member_texts(members@)),
{
    let ghost all = member_texts(members@);
    let ghost given = members@;
    let mut rest = members;
    let mut object = no_members();
    while rest.len() > 0
        invariant
            rest@.len() <= given.len(),
            rest@ == given.take(rest@.len() as int),
            all == member_texts(given),
            in_key_order(all),
            forall|i: int|
                rest@.len() <= i < all.len() ==> {
                    &&& json_members(object).dom().contains((#[trigger] all[i]).0)
                    &&& json_members(object)[all[i].0] == all[i].1
                },
            forall|key: Seq<char>| #[trigger]
                json_members(object).dom().contains(key) ==> exists|i: int|
                    rest@.len() <= i < all.len() && (#[trigger] all[i]).0 == key,
        decreases rest@.len(),
    {
        let ghost n = rest@.len();
        let ghost before = json_members(object);
        if let Some((key, value)) = rest.pop() {
            insert_member(&mut object, key, value);
            proof {
                assert(given.take(n as int).drop_last() =~= given.take(n - 1));
                assert(all[n - 1] == (key@, json_text(value)));
                assert forall|i: int| n <= i < all.len() implies (#[trigger] all[i]).0 != key@ by {
                    assert(text_before(all[n - 1].0, all[i].0));
                    if all[i].0 == key@ {
                        lemma_text_before_asymmetric(key@, key@);
                    }
                }
                assert forall|k: Seq<char>| #[trigger]
                    json_members(object).dom().contains(k) implies exists|i: int|
                    n - 1 <= i < all.len() && (#[trigger] all[i]).0 == k by {
                    if k != key@ {
                        assert(before.dom().contains(k));
                        let i = choose|i: int| n <= i < all.len() && (#[trigger] all[i]).0 == k;
                        assert(all[i].0 == k);
                    } else {
                        assert(all[n - 1].0 == k);
                    }
                }
            }
        }
    }
    proof {
        assert(lists_members(all, json_members(object)));
    }
    let ghost map = json_members(object);
    let value = object_value(object);
    proof {
        let listed = choose|listed: Seq<(Seq<char>, Seq<char>)>|
            in_key_order(listed) && lists_members(listed, map) && json_text(value)
                == #[trigger] json_object(listed);
        lemma_ordered_listing_unique(listed, all, map);
    }
    value_text(&value)
}

/// Whether `text` is ASCII and no longer than `limit`.
pub open spec fn is_short_ascii(text: Seq<char>, limit: nat) -> bool {
    is_ascii_chars(text) && text.len() <= limit
}

/// The escaped form of an ASCII text is ASCII and at most six times as long.
pub(crate) proof fn lemma_quoted_short(text: Seq<char>, limit: nat)
    requires
        is_short_ascii(text, limit),
    ensures
        is_short_ascii(json_escaped(text), 6 * limit),
        is_short_ascii(json_quoted(text), 6 * limit + 2),
    decreases text.len(),
{
    if text.len() > 0 {
        assert(is_ascii_chars(text.drop_first()));
        lemma_quoted_short(text.drop_first(), (text.len() - 1) as nat);
        assert(is_short_ascii(json_escape(text[0]), 6));
    }
}

/// A number with at most ten digits is written with no more.
pub(crate) proof fn lemma_integer_short(n: int)
    requires
        -10_000_000_000 < n < 10_000_000_000,
    ensures
        is_short_ascii(json_integer(n), 11),
{
    let m = if n < 0 { (-n) as nat } else { n as nat };
    reveal_with_fuel(ten_to, 11);
    lemma_digits_short(m, 10);
}

/// A number below a power of ten has no more digits than the exponent.
proof fn lemma_digits_short(n: nat, count: nat)
    requires
        count > 0,
        n < ten_to(count),
    ensures
        is_short_ascii(digits(n), count),
    decreases count,
{
    reveal_with_fuel(ten_to, 2);
    if n >= 10 {
        lemma_digits_short(n / 10, (count - 1) as nat);
    }
}

/// Short parts make a short list.
proof fn lemma_comma_separated_short(parts: Seq<Seq<char>>)
    requires
        forall|i: int| 0 <= i < parts.len() ==> is_short_ascii(#[trigger] parts[i], 999),
    ensures
        is_short_ascii(comma_separated(parts), 1000 * parts.len()),
    decreases parts.len(),
{
    if parts.len() > 0 {
        assert(is_short_ascii(parts[0], 999));
    }
    if parts.len() > 1 {
        let rest = parts.drop_first();
        assert forall|i: int| 0 <= i < rest.len() implies is_short_ascii(
            #[trigger] rest[i],
            999,
        ) by {
            assert(rest[i] == parts[i + 1]);
        }
        lemma_comma_separated_short(rest);
    }
}

/// Short members make a short object.
pub(crate) proof fn lemma_object_short(members: Seq<(Seq<char>, Seq<char>)>)
    requires
        forall|i: int|
            0 <= i < members.len() ==> {
                &&& is_short_ascii((#[trigger] members[i]).0, 50)
                &&& is_short_ascii(members[i].1, 500)
            },
    ensures
        is_short_ascii(json_object(members), 1000 * members.len() + 2),
{
    let parts = member_parts(members);
    assert forall|i: int| 0 <= i < parts.len() implies is_short_ascii(#[trigger] parts[i], 999) by {
        lemma_quoted_short(members[i].0, 50);
    }
    lemma_comma_separated_short(parts);
}

/// Characters whose escapes begin the same text are equal.
proof fn lemma_escape_prefix_free(a: char, b: char, a_rest: Seq<char>, b_rest: Seq<char>)
    requires
        json_escape(a) + a_rest == json_escape(b) + b_rest,
    ensures
        a == b,
        a_rest == b_rest,
{
    let text = json_escape(a) + a_rest;
    assert(text[0] == json_escape(a)[0] && text[0] == json_escape(b)[0]);
    if text[0] == '\\' {
        assert(text[1] == json_escape(a)[1] && text[1] == json_escape(b)[1]);
        if text[1] == 'u' {
            assert(text[4] == json_escape(a)[4] && text[4] == json_escape(b)[4]);
            assert(text[5] == json_escape(a)[5] && text[5] == json_escape(b)[5]);
        }
    }
    assert(a == b);
    let n = json_escape(a).len() as int;
    assert(a_rest =~= text.subrange(n, text.len() as int));
    assert(b_rest =~= text.subrange(n, text.len() as int));
}

/// Escaped texts that are followed by a quotation mark are equal where the whole is.
proof fn lemma_escaped_injective(a: Seq<char>, b: Seq<char>, a_rest: Seq<char>, b_rest: Seq<char>)
    requires
        json_escaped(a) + seq!['"'] + a_rest == json_escaped(b) + seq!['"'] + b_rest,
    ensures
        a == b,
        a_rest == b_rest,
    decreases a.len(),
{
    let text = json_escaped(a) + seq!['"'] + a_rest;
    if a.len() == 0 && b.len() == 0 {
        assert(a =~= b);
        assert(a_rest =~= text.drop_first());
        assert(b_rest =~= text.drop_first());
    } else if a.len() == 0 {
        assert(text[0] == '"');
        assert(text[0] == json_escape(b[0])[0]);
    } else if b.len() == 0 {
        assert(text[0] == '"');
        assert(text[0] == json_escape(a[0])[0]);
    } else {
        let a_tail = json_escaped(a.drop_first()) + seq!['"'] + a_rest;
        let b_tail = json_escaped(b.drop_first()) + seq!['"'] + b_rest;
        assert(text =~= json_escape(a[0]) + a_tail);
        assert(text =~= json_escape(b[0]) + b_tail);
        lemma_escape_prefix_free(a[0], b[0], a_tail, b_tail);
        lemma_escaped_injective(a.drop_first(), b.drop_first(), a_rest, b_rest);
        assert(a =~= seq![a[0]] + a.drop_first());
        assert(b =~= seq![b[0]] + b.drop_first());
    }
}

/// JSON strings at the start of one text are of the same text.
pub proof fn law_quoted_injective(a: Seq<char>, b: Seq<char>, a_rest: Seq<char>, b_rest: Seq<char>)
    requires
        json_quoted(a) + a_rest == json_quoted(b) + b_rest,
    ensures
        a == b,
        a_rest == b_rest,
{
    let text = json_quoted(a) + a_rest;
    assert(json_escaped(a) + seq!['"'] + a_rest =~= text.drop_first());
    assert(json_escaped(b) + seq!['"'] + b_rest =~= text.drop_first());
    lemma_escaped_injective(a, b, a_rest, b_rest);
}

/// Two natural numbers have the same digits only if they are equal.
proof fn lemma_digits_injective(a: nat, b: nat)
    requires
        digits(a) == digits(b),
    ensures
        a == b,
    decreases a,
{
    lemma_digits_are_digits(a);
    lemma_digits_are_digits(b);
    assert(digits(a).last() as int == '0' as int + a % 10);
    assert(digits(b).last() as int == '0' as int + b % 10);
    if a >= 10 && b >= 10 {
        assert(digits(a / 10) =~= digits(a).drop_last());
        assert(digits(b / 10) =~= digits(b).drop_last());
        lemma_digits_injective(a / 10, b / 10);
    } else if a >= 10 {
        lemma_digits_are_digits(a / 10);
        assert(digits(a).len() == digits(a / 10).len() + 1);
    } else if b >= 10 {
        lemma_digits_are_digits(b / 10);
        assert(digits(b).len() == digits(b / 10).len() + 1);
    }
}

/// A natural number is written with at least one digit, and with nothing else.
proof fn lemma_digits_are_digits(n: nat)
    ensures
        digits(n).len() > 0,
        forall|i: int|
            0 <= i < digits(n).len() ==> '0' <= (#[trigger] digits(n)[i]) && digits(n)[i] <= '9',
    decreases n,
{
    if n >= 10 {
        lemma_digits_are_digits(n / 10);
    }
}

/// Two integers are the same JSON number only if they are equal.
pub proof fn law_integer_injective(a: int, b: int)
    requires
        json_integer(a) == json_integer(b),
    ensures
        a == b,
{
    let text = json_integer(a);
    let m = if a < 0 { (-a) as nat } else { a as nat };
    let n = if b < 0 { (-b) as nat } else { b as nat };
    lemma_digits_are_digits(m);
    lemma_digits_are_digits(n);
    if a < 0 && b < 0 {
        assert(digits(m) =~= text.drop_first());
        assert(digits(n) =~= text.drop_first());
        lemma_digits_injective(m, n);
    } else if a >= 0 && b >= 0 {
        lemma_digits_injective(m, n);
    } else if a < 0 {
        assert(text[0] == '-');
        assert(digits(n)[0] >= '0');
    } else {
        assert(text[0] == digits(m)[0]);
        assert(json_integer(b)[0] == '-');
    }
}

/// Whether no comma stands in `text`.
spec fn has_no_comma(text: Seq<char>) -> bool {
    forall|i: int| 0 <= i < text.len() ==> (#[trigger] text[i]) != ','
}

/// No comma stands in a JSON number.
proof fn lemma_integer_has_no_comma(n: int)
    ensures
        has_no_comma(json_integer(n)),
{
    lemma_digits_are_digits(if n < 0 { (-n) as nat } else { n as nat });
}

/// Two texts without commas, each at the end or followed by a comma, are equal where the whole
/// is.
proof fn lemma_split_at_comma(a: Seq<char>, b: Seq<char>, a_rest: Seq<char>, b_rest: Seq<char>)
    requires
        has_no_comma(a),
        has_no_comma(b),
        a_rest.len() > 0 ==> a_rest[0] == ',',
        b_rest.len() > 0 ==> b_rest[0] == ',',
        a + a_rest == b + b_rest,
    ensures
        a == b,
        a_rest == b_rest,
{
    let text = a + a_rest;
    if a.len() < b.len() {
        assert(text[a.len() as int] == b[a.len() as int]);
        assert(text[a.len() as int] == a_rest[0]);
    } else if b.len() < a.len() {
        assert(text[b.len() as int] == a[b.len() as int]);
        assert(text[b.len() as int] == b_rest[0]);
    }
    assert(a =~= text.take(a.len() as int));
    assert(b =~= text.take(a.len() as int));
    assert(a_rest =~= text.skip(a.len() as int));
    assert(b_rest =~= text.skip(a.len() as int));
}

/// Whether `text` is a JSON string or a JSON number.
pub open spec fn is_scalar_text(text: Seq<char>) -> bool {
    ||| exists|content: Seq<char>| text == #[trigger] json_quoted(content)
    ||| exists|n: int| text == #[trigger] json_integer(n)
}

/// Whether each member of the one list has the key of the other's, and all values are
/// strings or numbers.
pub open spec fn same_shape(
    a: Seq<(Seq<char>, Seq<char>)>,
    b: Seq<(Seq<char>, Seq<char>)>,
) -> bool {
    &&& a.len() == b.len()
    &&& forall|i: int|
        0 <= i < a.len() ==> {
            &&& (#[trigger] a[i]).0 == (#[trigger] b[i]).0
            &&& is_scalar_text(a[i].1)
            &&& is_scalar_text(b[i].1)
        }
}

/// Scalars at the start of one text, each at its end or followed by a comma, are equal.
proof fn lemma_scalars_equal(a: Seq<char>, b: Seq<char>, a_rest: Seq<char>, b_rest: Seq<char>)
    requires
        is_scalar_text(a),
        is_scalar_text(b),
        a_rest.len() > 0 ==> a_rest[0] == ',',
        b_rest.len() > 0 ==> b_rest[0] == ',',
        a + a_rest == b + b_rest,
    ensures
        a == b,
        a_rest == b_rest,
{
    let text = a + a_rest;
    if exists|m: int| a == #[trigger] json_integer(m) {
        let m = choose|m: int| a == #[trigger] json_integer(m);
        lemma_digits_are_digits(if m < 0 { (-m) as nat } else { m as nat });
        lemma_integer_has_no_comma(m);
        assert(text[0] == a[0] && a[0] != '"');
        if exists|n: int| b == #[trigger] json_integer(n) {
            let n = choose|n: int| b == #[trigger] json_integer(n);
            lemma_digits_are_digits(if n < 0 { (-n) as nat } else { n as nat });
            lemma_integer_has_no_comma(n);
            lemma_split_at_comma(a, b, a_rest, b_rest);
        } else {
            let y = choose|y: Seq<char>| b == #[trigger] json_quoted(y);
            assert(text[0] == b[0] && b[0] == '"');
        }
    } else {
        let x = choose|x: Seq<char>| a == #[trigger] json_quoted(x);
        assert(text[0] == a[0] && a[0] == '"');
        if exists|n: int| b == #[trigger] json_integer(n) {
            let n = choose|n: int| b == #[trigger] json_integer(n);
            lemma_digits_are_digits(if n < 0 { (-n) as nat } else { n as nat });
            assert(text[0] == b[0] && b[0] != '"');
        } else {
            let y = choose|y: Seq<char>| b == #[trigger] json_quoted(y);
            law_quoted_injective(x, y, a_rest, b_rest);
        }
    }
}

/// Lists of members of the same shape are equal where their texts are.
proof fn lemma_members_injective(a: Seq<(Seq<char>, Seq<char>)>, b: Seq<(Seq<char>, Seq<char>)>)
    requires
        same_shape(a, b),
        comma_separated(member_parts(a)) == comma_separated(member_parts(b)),
    ensures
        a == b,
    decreases a.len(),
{
    if a.len() == 0 {
        assert(a =~= b);
    } else {
        let key = json_quoted(a[0].0) + seq![':'];
        assert(a[0].0 == b[0].0);
        let a_tail = a.drop_first();
        let b_tail = b.drop_first();
        assert(member_parts(a).drop_first() =~= member_parts(a_tail));
        assert(member_parts(b).drop_first() =~= member_parts(b_tail));
        let a_rest = if a.len() == 1 {
            Seq::<char>::empty()
        } else {
            seq![','] + comma_separated(member_parts(a_tail))
        };
        let b_rest = if b.len() == 1 {
            Seq::<char>::empty()
        } else {
            seq![','] + comma_separated(member_parts(b_tail))
        };
        let text = comma_separated(member_parts(a));
        assert(text =~= key + (a[0].1 + a_rest));
        assert(text =~= key + (b[0].1 + b_rest));
        assert(a[0].1 + a_rest =~= text.skip(key.len() as int));
        assert(b[0].1 + b_rest =~= text.skip(key.len() as int));
        lemma_scalars_equal(a[0].1, b[0].1, a_rest, b_rest);
        if a.len() > 1 {
            assert(comma_separated(member_parts(a_tail)) =~= a_rest.drop_first());
            assert(comma_separated(member_parts(b_tail)) =~= b_rest.drop_first());
        }
        assert forall|i: int| 0 <= i < a_tail.len() implies {
            &&& (#[trigger] a_tail[i]).0 == (#[trigger] b_tail[i]).0
            &&& is_scalar_text(a_tail[i].1)
            &&& is_scalar_text(b_tail[i].1)
        } by {
            assert(a_tail[i] == a[i + 1] && b_tail[i] == b[i + 1]);
            assert(a[i + 1].0 == b[i + 1].0);
        }
        lemma_members_injective(a_tail, b_tail);
        assert(a =~= seq![a[0]] + a_tail);
        assert(b =~= seq![b[0]] + b_tail);
    }
}

/// Objects of strings and numbers under the same keys have the same text only if they have the
/// same members.
pub proof fn law_object_injective(a: Seq<(Seq<char>, Seq<char>)>, b: Seq<(Seq<char>, Seq<char>)>)
    requires
        same_shape(a, b),
        json_object(a) == json_object(b),
    ensures
        a == b,
{
    let text = json_object(a);
    assert(comma_separated(member_parts(a)) =~= text.subrange(1, text.len() - 1));
    assert(comma_separated(member_parts(b)) =~= text.subrange(1, text.len() - 1));
    lemma_members_injective(a, b);
}

} // verus!
