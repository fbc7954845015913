//! What a JSON text means: the tree that it writes down, read character by
//! character from a position in the text.
//!
//! Each function below takes the whole text and a position, and gives what
//! stands at that position together with the number of characters that it
//! takes up, or the fault that stops the reading.

use crate::json::value::{JsonValue, ParserFault};
use crate::string_map::{has_key, lemma_pairs_map_keys, lemma_pairs_map_last, pairs_map};
use crate::text::number::{integer_value, is_decimal_literal};
use crate::text::scan::{
    is_digit, is_whitespace, lemma_run_len, lemma_run_len_unique, run_len, word_at, CharClass,
};
use vstd::prelude::*;

verus! {

/// A JSON text as it is written: the members of an object in the order of the
/// text, a name as often as the text has it.
pub ghost enum JsonTree {
    Object(Seq<(Seq<char>, JsonTree)>),
    Array(Seq<JsonTree>),
    String(Seq<char>),
    Number(int),
    Decimal(Seq<char>),
    Boolean(bool),
}

impl JsonTree {
    /// The value that the tree stands for. The members of an object are
    /// written into a map in the order of the text, so of two members with
    /// one name the later one stays.
    pub open spec fn value(self) -> JsonValue
        decreases self,
    {
        match self {
            JsonTree::Object(members) => JsonValue::Object(pairs_map(member_values(members))),
            JsonTree::Array(items) => JsonValue::Array(item_values(items)),
            JsonTree::String(s) => JsonValue::String(s),
            JsonTree::Number(n) => JsonValue::Number(n),
            JsonTree::Decimal(s) => JsonValue::Decimal(s),
            JsonTree::Boolean(b) => JsonValue::Boolean(b),
        }
    }
}

/// The members of an object with the value of each in place of its tree.
pub open spec fn member_values(members: Seq<(Seq<char>, JsonTree)>) -> Seq<
    (Seq<char>, JsonValue),
>
    decreases members,
{
    Seq::new(
        members.len(),
        |i: int|
            if 0 <= i < members.len() {
                (members[i].0, members[i].1.value())
            } else {
                arbitrary()
            },
    )
}

/// The values of the items of an array.
pub open spec fn item_values(items: Seq<JsonTree>) -> Seq<JsonValue>
    decreases items,
{
    Seq::new(
        items.len(),
        |i: int|
            if 0 <= i < items.len() {
                items[i].value()
            } else {
                arbitrary()
            },
    )
}

/// The string that opens at `pos`: it runs from the quote at `pos` to the
/// next quote, whatever stands between them.
pub open spec fn string_at(s: Seq<char>, pos: int) -> Result<(Seq<char>, nat), ParserFault> {
    if !(0 <= pos < s.len() && s[pos] == '"') {
        Err(ParserFault::InvalidSyntax("String must start with a quote: "@ + s.skip(pos)))
    } else {
        let n = run_len(s, pos + 1, CharClass::Except('"'));
        if pos + 1 + n >= s.len() {
            Err(ParserFault::MissingToken("Missing closing quote for string"@))
        } else {
            Ok((s.subrange(pos + 1, pos + 1 + n), n + 2))
        }
    }
}

/// The boolean at `pos`: the word `true` or the word `false`.
pub open spec fn boolean_at(s: Seq<char>, pos: int) -> Result<(bool, nat), ParserFault> {
    if 0 <= pos < s.len() && s[pos] == 't' {
        if word_at(s, pos, "true"@) {
            Ok((true, 4))
        } else {
            Err(ParserFault::InvalidSyntax("Invalid boolean: "@ + s.skip(pos)))
        }
    } else if 0 <= pos < s.len() && s[pos] == 'f' {
        if word_at(s, pos, "false"@) {
            Ok((false, 5))
        } else {
            Err(ParserFault::InvalidSyntax("Invalid boolean: "@ + s.skip(pos)))
        }
    } else {
        Err(
            ParserFault::UnexpectedToken(
                "Expected boolean, found: "@.push(
                    if 0 <= pos < s.len() {
                        s[pos]
                    } else {
                        ' '
                    },
                ),
            ),
        )
    }
}

/// The number at `pos`: the longest run of digits, `-` and `.`, which some
/// other character has to end. With a point in it the run is a decimal, and
/// without one an integer that fits 64 bits.
pub open spec fn number_at(s: Seq<char>, pos: int) -> Result<(JsonTree, nat), ParserFault> {
    let n = run_len(s, pos, CharClass::Numeric);
    if pos < 0 || pos + n >= s.len() {
        Err(ParserFault::EmptyInput)
    } else {
        let token = s.subrange(pos, pos + n);
        if n == 0 {
            Err(ParserFault::InvalidSyntax("Invalid number: "@ + s.skip(pos)))
        } else if token.contains('.') {
            if is_decimal_literal(token) {
                Ok((JsonTree::Decimal(token), n))
            } else {
                Err(ParserFault::InvalidSyntax("Invalid number: "@ + token))
            }
        } else {
            match integer_value(token) {
                Some(v) if i64::MIN <= v <= i64::MAX => Ok((JsonTree::Number(v), n)),
                _ => Err(ParserFault::InvalidSyntax("Invalid number: "@ + token)),
            }
        }
    }
}

/// The value at `pos`, told by its first character. Inside an array another
/// array is refused.
pub open spec fn value_at(s: Seq<char>, pos: int, in_array: bool) -> Result<
    (JsonTree, nat),
    ParserFault,
>
    decreases s.len() - pos, 2int,
{
    if pos < 0 || pos >= s.len() {
        Err(ParserFault::EmptyInput)
    } else if s[pos] == '{' {
        match object_at(s, pos) {
            Ok((members, n)) => Ok((JsonTree::Object(members), n)),
            Err(e) => Err(e),
        }
    } else if s[pos] == '[' {
        if in_array {
            Err(ParserFault::NotSupported("Nested arrays not supported yet"@))
        } else {
            match array_at(s, pos) {
                Ok((items, n)) => Ok((JsonTree::Array(items), n)),
                Err(e) => Err(e),
            }
        }
    } else if s[pos] == '"' {
        match string_at(s, pos) {
            Ok((text, n)) => Ok((JsonTree::String(text), n)),
            Err(e) => Err(e),
        }
    } else if s[pos] == 't' || s[pos] == 'f' {
        match boolean_at(s, pos) {
            Ok((b, n)) => Ok((JsonTree::Boolean(b), n)),
            Err(e) => Err(e),
        }
    } else if is_digit(s[pos]) || s[pos] == '-' {
        number_at(s, pos)
    } else if in_array {
        Err(ParserFault::UnexpectedToken("Unexpected token in array: "@.push(s[pos])))
    } else {
        Err(ParserFault::UnexpectedToken("Unexpected token in object value: "@.push(s[pos])))
    }
}

/// The object that opens at `pos`, with its members in the order of the text.
pub open spec fn object_at(s: Seq<char>, pos: int) -> Result<
    (Seq<(Seq<char>, JsonTree)>, nat),
    ParserFault,
>
    decreases s.len() - pos, 1int,
{
    if pos < 0 || pos >= s.len() {
        Err(ParserFault::EmptyInput)
    } else if s[pos] != '{' {
        Err(ParserFault::InvalidSyntax("Object must start with '{'"@))
    } else {
        let gap = run_len(s, pos + 1, CharClass::Whitespace);
        if pos + 1 + gap >= s.len() {
            Err(ParserFault::EmptyInput)
        } else {
            match members_at(s, pos + 1 + gap, Seq::empty()) {
                Ok((members, n)) => Ok((members, 1 + gap + n)),
                Err(e) => Err(e),
            }
        }
    }
}

/// The members of an object from `pos` on, after the members `before` that
/// were read already. A member is a string, a colon right behind it, and a
/// value; a comma leads to the next member and a closing brace ends the
/// object. White space may stand after the colon, around the comma and
/// behind a brace that follows a member.
pub open spec fn members_at(
    s: Seq<char>,
    pos: int,
    before: Seq<(Seq<char>, JsonTree)>,
) -> Result<(Seq<(Seq<char>, JsonTree)>, nat), ParserFault>
    decreases s.len() - pos, 0int,
{
    if pos < 0 || pos >= s.len() {
        Err(ParserFault::EmptyInput)
    } else if s[pos] == '}' {
        Ok((before, 1))
    } else {
        match string_at(s, pos) {
            Err(e) => Err(e),
            Ok((name, name_len)) => {
                let colon = pos + name_len;
                if colon >= s.len() {
                    Err(ParserFault::EmptyInput)
                } else if s[colon] != ':' {
                    Err(ParserFault::MissingToken("Expected ':' after key"@))
                } else {
                    let start = colon + 1 + run_len(s, colon + 1, CharClass::Whitespace);
                    if start >= s.len() {
                        Err(ParserFault::EmptyInput)
                    } else {
                        match value_at(s, start, false) {
                            Err(e) => Err(e),
                            Ok((tree, tree_len)) => {
                                let end = start + tree_len;
                                let mark = end + run_len(s, end, CharClass::Whitespace);
                                let next = mark + 1 + run_len(s, mark + 1, CharClass::Whitespace);
                                let members = before.push((name, tree));
                                if mark >= s.len() {
                                    Err(ParserFault::EmptyInput)
                                } else if s[mark] == '}' {
                                    Ok((members, (next - pos) as nat))
                                } else if s[mark] != ',' {
                                    Err(
                                        ParserFault::UnexpectedToken(
                                            "Expected ',' or '}' in object, found: "@.push(
                                                s[mark],
                                            ),
                                        ),
                                    )
                                } else if next >= s.len() {
                                    Err(ParserFault::EmptyInput)
                                } else {
                                    match members_at(s, next, members) {
                                        Ok((all, n)) => Ok((all, (next - pos) as nat + n)),
                                        Err(e) => Err(e),
                                    }
                                }
                            },
                        }
                    }
                }
            },
        }
    }
}

/// The array that opens at `pos`, with its items in the order of the text.
pub open spec fn array_at(s: Seq<char>, pos: int) -> Result<(Seq<JsonTree>, nat), ParserFault>
    decreases s.len() - pos, 1int,
{
    if pos < 0 || pos >= s.len() {
        Err(ParserFault::EmptyInput)
    } else if s[pos] != '[' {
        Err(ParserFault::InvalidSyntax("Array must start with '['"@))
    } else {
        let gap = run_len(s, pos + 1, CharClass::Whitespace);
        if pos + 1 + gap >= s.len() {
            Err(ParserFault::EmptyInput)
        } else {
            match items_at(s, pos + 1 + gap, Seq::empty()) {
                Ok((items, n)) => Ok((items, 1 + gap + n)),
                Err(e) => Err(e),
            }
        }
    }
}

/// The items of an array from `pos` on, after the items `before` that were
/// read already. A comma leads to the next item. A closing bracket that
/// follows an item ends the array and is taken with the white space behind
/// it; a closing bracket where an item could stand ends the array too, but is
/// left in the text.
pub open spec fn items_at(s: Seq<char>, pos: int, before: Seq<JsonTree>) -> Result<
    (Seq<JsonTree>, nat),
    ParserFault,
>
    decreases s.len() - pos, 3int,
{
    if pos < 0 || pos >= s.len() {
        Err(ParserFault::EmptyInput)
    } else if s[pos] == ']' {
        Ok((before, 0))
    } else {
        match value_at(s, pos, true) {
            Err(e) => Err(e),
            Ok((tree, tree_len)) => {
                let end = pos + tree_len;
                let mark = end + run_len(s, end, CharClass::Whitespace);
                let next = mark + 1 + run_len(s, mark + 1, CharClass::Whitespace);
                let items = before.push(tree);
                if mark >= s.len() {
                    Err(ParserFault::EmptyInput)
                } else if s[mark] == ']' {
                    Ok((items, (next - pos) as nat))
                } else if s[mark] != ',' {
                    Err(
                        ParserFault::UnexpectedToken(
                            "Expected ',' or ']' in array, found: "@.push(s[mark]),
                        ),
                    )
                } else if next >= s.len() {
                    Err(ParserFault::EmptyInput)
                } else {
                    match items_at(s, next, items) {
                        Ok((all, n)) => Ok((all, (next - pos) as nat + n)),
                        Err(e) => Err(e),
                    }
                }
            },
        }
    }
}

/// The tree that a whole text writes down: an object or an array, after any
/// white space. What follows the value is not looked at.
pub open spec fn document(s: Seq<char>) -> Result<JsonTree, ParserFault> {
    let start = run_len(s, 0, CharClass::Whitespace) as int;
    if start >= s.len() {
        Err(ParserFault::EmptyInput)
    } else if s[start] == '{' {
        match object_at(s, start) {
            Ok((members, _)) => Ok(JsonTree::Object(members)),
            Err(e) => Err(e),
        }
    } else if s[start] == '[' {
        match array_at(s, start) {
            Ok((items, _)) => Ok(JsonTree::Array(items)),
            Err(e) => Err(e),
        }
    } else {
        Err(ParserFault::UnexpectedToken("Unexpected token: "@.push(s[start])))
    }
}

/// The value that a whole text stands for.
pub open spec fn json_of(s: Seq<char>) -> Result<JsonValue, ParserFault> {
    match document(s) {
        Ok(tree) => Ok(tree.value()),
        Err(e) => Err(e),
    }
}

/// What is read at a position lies within the text: a value takes up at
/// least one character and ends where the text ends or before.
pub proof fn lemma_value_within(s: Seq<char>, pos: int, in_array: bool)
    requires
        0 <= pos <= s.len(),
    ensures
        value_at(s, pos, in_array) matches Ok((_, n)) ==> 0 < n && pos + n <= s.len(),
    decreases s.len() - pos, 2int,
{
    reveal_strlit("true");
    reveal_strlit("false");
    if pos < s.len() {
        if s[pos] == '{' {
            lemma_object_within(s, pos);
        } else if s[pos] == '[' && !in_array {
            lemma_array_within(s, pos);
        }
    }
}

/// An object takes up at least one character and ends within the text.
pub proof fn lemma_object_within(s: Seq<char>, pos: int)
    requires
        0 <= pos <= s.len(),
    ensures
        object_at(s, pos) matches Ok((_, n)) ==> 0 < n && pos + n <= s.len(),
    decreases s.len() - pos, 1int,
{
    let start = pos + 1 + run_len(s, pos + 1, CharClass::Whitespace);
    if pos < s.len() && s[pos] == '{' && start < s.len() {
        lemma_members_within(s, start, Seq::empty());
    }
}

/// The members of an object, with its closing brace, take up at least one
/// character and end within the text.
pub proof fn lemma_members_within(s: Seq<char>, pos: int, before: Seq<(Seq<char>, JsonTree)>)
    requires
        0 <= pos <= s.len(),
    ensures
        members_at(s, pos, before) matches Ok((_, n)) ==> 0 < n && pos + n <= s.len(),
    decreases s.len() - pos, 0int,
{
    if pos < s.len() && s[pos] != '}' {
        if let Ok((name, name_len)) = string_at(s, pos) {
            let colon = pos + name_len;
            let start = colon + 1 + run_len(s, colon + 1, CharClass::Whitespace);
            if colon < s.len() && s[colon] == ':' && start < s.len() {
                lemma_value_within(s, start, false);
                if let Ok((tree, tree_len)) = value_at(s, start, false) {
                    let end = start + tree_len;
                    let mark = end + run_len(s, end, CharClass::Whitespace);
                    let next = mark + 1 + run_len(s, mark + 1, CharClass::Whitespace);
                    if mark < s.len() {
                        lemma_run_len(s, mark + 1, CharClass::Whitespace);
                        if s[mark] == ',' && next < s.len() {
                            lemma_members_within(s, next, before.push((name, tree)));
                        }
                    }
                }
            }
        }
    }
}

/// An array takes up at least one character and ends within the text.
pub proof fn lemma_array_within(s: Seq<char>, pos: int)
    requires
        0 <= pos <= s.len(),
    ensures
        array_at(s, pos) matches Ok((_, n)) ==> 0 < n && pos + n <= s.len(),
    decreases s.len() - pos, 1int,
{
    let start = pos + 1 + run_len(s, pos + 1, CharClass::Whitespace);
    if pos < s.len() && s[pos] == '[' && start < s.len() {
        lemma_items_within(s, start, Seq::empty());
    }
}

/// The items of an array end within the text.
pub proof fn lemma_items_within(s: Seq<char>, pos: int, before: Seq<JsonTree>)
    requires
        0 <= pos <= s.len(),
    ensures
        items_at(s, pos, before) matches Ok((_, n)) ==> pos + n <= s.len(),
    decreases s.len() - pos, 3int,
{
    if pos < s.len() && s[pos] != ']' {
        lemma_value_within(s, pos, true);
        if let Ok((tree, tree_len)) = value_at(s, pos, true) {
            let end = pos + tree_len;
            let mark = end + run_len(s, end, CharClass::Whitespace);
            let next = mark + 1 + run_len(s, mark + 1, CharClass::Whitespace);
            if mark < s.len() {
                lemma_run_len(s, mark + 1, CharClass::Whitespace);
                if s[mark] == ',' && next < s.len() {
                    lemma_items_within(s, next, before.push(tree));
                }
            }
        }
    }
}

/// A text that writes an object stands for an object with exactly the names
/// of the written members, and under each name the value of the last member
/// that is written with that name.
pub proof fn lemma_object_members(text: Seq<char>, members: Seq<(Seq<char>, JsonTree)>)
    requires
        document(text) == Ok::<JsonTree, ParserFault>(JsonTree::Object(members)),
    ensures
        json_of(text) matches Ok(JsonValue::Object(map)) && (forall|name: Seq<char>|
            #[trigger] map.contains_key(name) <==> exists|i: int|
                0 <= i < members.len() && (#[trigger] members[i]).0 == name) && (forall|i: int|
            0 <= i < members.len() && (forall|j: int|
                i < j < members.len() ==> (#[trigger] members[j]).0 != members[i].0)
                ==> map.contains_key((#[trigger] members[i]).0) && map[members[i].0]
                == members[i].1.value()),
{
    let pairs = member_values(members);
    let map = pairs_map(pairs);
    assert forall|name: Seq<char>| #[trigger]
        map.contains_key(name) <==> exists|i: int|
            0 <= i < members.len() && (#[trigger] members[i]).0 == name by {
        lemma_pairs_map_keys(pairs, name);
        if has_key(pairs, name) {
            let i = choose|i: int| 0 <= i < pairs.len() && (#[trigger] pairs[i]).0 == name;
            assert(members[i].0 == name);
        }
        if exists|i: int| 0 <= i < members.len() && (#[trigger] members[i]).0 == name {
            let i = choose|i: int| 0 <= i < members.len() && (#[trigger] members[i]).0 == name;
            assert(pairs[i].0 == name);
        }
    }
    assert forall|i: int|
        0 <= i < members.len() && (forall|j: int|
            i < j < members.len() ==> (#[trigger] members[j]).0
                != members[i].0) implies map.contains_key((#[trigger] members[i]).0)
        && map[members[i].0] == members[i].1.value() by {
        assert forall|j: int| i < j < pairs.len() implies (#[trigger] pairs[j]).0
            != pairs[i].0 by {
            assert(members[j].0 != members[i].0);
        }
        lemma_pairs_map_last(pairs, i);
    }
}

/// A text of white space alone, the empty text among them, holds no value.
pub proof fn lemma_blank_text(text: Seq<char>)
    requires
        forall|i: int| 0 <= i < text.len() ==> is_whitespace(#[trigger] text[i]),
    ensures
        json_of(text) == Err::<JsonValue, ParserFault>(ParserFault::EmptyInput),
{
    lemma_run_len_unique(text, 0, CharClass::Whitespace, text.len());
}

} // verus!
