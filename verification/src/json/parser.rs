//! The parser: it walks a buffer of characters with a cursor and builds the
//! value that the grammar gives.

use crate::json::grammar::{
    array_at, boolean_at, item_values, items_at, json_of, member_values, members_at, number_at,
    object_at, string_at, value_at, JsonTree,
};
use crate::json::value::{array_view, object_view, JsonType, JsonValue, ParserError, ParserFault};
use crate::string_map::{pairs_map, StringMap};
use crate::text::convert::{join_char, join_text, spells, to_chars, to_text};
use crate::text::number::{decimal_literal, parse_i64};
use crate::text::scan::{lemma_run_len, scan, CharClass};
use vstd::prelude::*;

verus! {

/// Whether the outcome `got` of reading a value at `pos` is the outcome
/// `want` that the grammar gives: the same fault, or a value that the tree
/// stands for and the position right behind it.
pub open spec fn reads(
    got: Result<(JsonType, usize), ParserError>,
    pos: usize,
    want: Result<(JsonTree, nat), ParserFault>,
) -> bool {
    match got {
        Ok((value, next)) => want matches Ok((tree, n)) && value@ == tree.value() && next == pos
            + n,
        Err(e) => want == Err::<(JsonTree, nat), ParserFault>(e@),
    }
}

/// An outcome of the grammar, read `by` characters further on.
pub open spec fn shifted<T>(r: Result<(T, nat), ParserFault>, by: nat) -> Result<
    (T, nat),
    ParserFault,
> {
    match r {
        Ok((t, n)) => Ok((t, n + by)),
        Err(e) => Err(e),
    }
}

/// Reads the string that opens at `pos` and returns its text and the
/// position behind its closing quote.
pub fn parse_string(buf: &[char], pos: usize) -> (r: Result<(String, usize), ParserError>)
    requires
        pos <= buf@.len(),
    ensures
        match r {
            Ok((text, next)) => pos < next <= buf@.len() && string_at(buf@, pos as int) == Ok::<
                (Seq<char>, nat),
                ParserFault,
            >((text@, (next - pos) as nat)),
            Err(e) => string_at(buf@, pos as int) == Err::<(Seq<char>, nat), ParserFault>(e@),
        },
{
    if pos >= buf.len() || buf[pos] != '"' {
        return Err(
            ParserError::InvalidSyntax(
                join_text("String must start with a quote: ", &buf[pos..buf.len()]),
            ),
        );
    }
    let close = scan(buf, pos + 1, CharClass::Except('"'));
    if close >= buf.len() {
        return Err(ParserError::MissingToken("Missing closing quote for string".to_owned()));
    }
    Ok((to_text(&buf[pos + 1..close]), close + 1))
}

/// Reads the boolean at `pos` and returns it and the position behind it.
pub fn parse_boolean(buf: &[char], pos: usize) -> (r: Result<(bool, usize), ParserError>)
    requires
        pos <= buf@.len(),
    ensures
        match r {
            Ok((b, next)) => pos < next <= buf@.len() && boolean_at(buf@, pos as int) == Ok::<
                (bool, nat),
                ParserFault,
            >((b, (next - pos) as nat)),
            Err(e) => boolean_at(buf@, pos as int) == Err::<(bool, nat), ParserFault>(e@),
        },
{
    proof {
        reveal_strlit("true");
        reveal_strlit("false");
    }
    let len = buf.len();
    if pos < len && buf[pos] == 't' {
        if len - pos >= 4 && spells(&buf[pos..pos + 4], "true") {
            Ok((true, pos + 4))
        } else {
            Err(ParserError::InvalidSyntax(join_text("Invalid boolean: ", &buf[pos..len])))
        }
    } else if pos < len && buf[pos] == 'f' {
        if len - pos >= 5 && spells(&buf[pos..pos + 5], "false") {
            Ok((false, pos + 5))
        } else {
            Err(ParserError::InvalidSyntax(join_text("Invalid boolean: ", &buf[pos..len])))
        }
    } else {
        let found = if pos < len {
            buf[pos]
        } else {
            ' '
        };
        Err(ParserError::UnexpectedToken(join_char("Expected boolean, found: ", found)))
    }
}

/// Reads the number at `pos` and returns it and the position behind it.
pub fn parse_number(buf: &[char], pos: usize) -> (r: Result<(JsonType, usize), ParserError>)
    requires
        pos <= buf@.len(),
    ensures
        reads(r, pos, number_at(buf@, pos as int)),
        r matches Ok((_, next)) ==> pos < next < buf@.len(),
{
    let end = scan(buf, pos, CharClass::Numeric);
    if end >= buf.len() {
        return Err(ParserError::EmptyInput);
    }
    if end == pos {
        return Err(
            ParserError::InvalidSyntax(join_text("Invalid number: ", &buf[pos..buf.len()])),
        );
    }
    let token = &buf[pos..end];
    let point = scan(token, 0, CharClass::Except('.'));
    proof {
        lemma_run_len(token@, 0, CharClass::Except('.'));
        if point < token@.len() {
            assert(token@[point as int] == '.');
        }
    }
    if point < token.len() {
        if decimal_literal(token) {
            Ok((JsonType::Decimal(to_text(token)), end))
        } else {
            Err(ParserError::InvalidSyntax(join_text("Invalid number: ", token)))
        }
    } else {
        match parse_i64(token) {
            Some(n) => Ok((JsonType::Number(n), end)),
            None => Err(ParserError::InvalidSyntax(join_text("Invalid number: ", token))),
        }
    }
}

/// Reads the value at `pos` and returns it and the position behind it.
/// Inside an array, `in_array` is set and another array is refused.
pub fn parse_value(buf: &[char], pos: usize, in_array: bool) -> (r: Result<
    (JsonType, usize),
    ParserError,
>)
    requires
        pos <= buf@.len(),
    ensures
        reads(r, pos, value_at(buf@, pos as int, in_array)),
        r matches Ok((_, next)) ==> pos <= next <= buf@.len(),
    decreases buf@.len() - pos, 2int,
{
    if pos >= buf.len() {
        return Err(ParserError::EmptyInput);
    }
    let c = buf[pos];
    if c == '{' {
        match parse_object(buf, pos) {
            Ok((members, next)) => Ok((JsonType::Object(members), next)),
            Err(e) => Err(e),
        }
    } else if c == '[' {
        if in_array {
            Err(ParserError::NotSupported("Nested arrays not supported yet".to_owned()))
        } else {
            match parse_array(buf, pos) {
                Ok((items, next)) => Ok((JsonType::Array(items), next)),
                Err(e) => Err(e),
            }
        }
    } else if c == '"' {
        match parse_string(buf, pos) {
            Ok((text, next)) => Ok((JsonType::String(text), next)),
            Err(e) => Err(e),
        }
    } else if c == 't' || c == 'f' {
        match parse_boolean(buf, pos) {
            Ok((b, next)) => Ok((JsonType::Boolean(b), next)),
            Err(e) => Err(e),
        }
    } else if ('0' <= c && c <= '9') || c == '-' {
        parse_number(buf, pos)
    } else if in_array {
        Err(ParserError::UnexpectedToken(join_char("Unexpected token in array: ", c)))
    } else {
        Err(ParserError::UnexpectedToken(join_char("Unexpected token in object value: ", c)))
    }
}

/// Reads the object that opens at `pos` and returns its members and the
/// position behind it.
pub fn parse_object(buf: &[char], pos: usize) -> (r: Result<
    (StringMap<JsonType>, usize),
    ParserError,
>)
    requires
        pos <= buf@.len(),
    ensures
        match r {
            Ok((members, next)) => object_at(buf@, pos as int) matches Ok((written, n))
                && object_view(members) == pairs_map(member_values(written)) && next == pos + n
                && next <= buf@.len(),
            Err(e) => object_at(buf@, pos as int) == Err::<
                (Seq<(Seq<char>, JsonTree)>, nat),
                ParserFault,
            >(e@),
        },
    decreases buf@.len() - pos, 1int,
{
    let len = buf.len();
    if pos >= len {
        return Err(ParserError::EmptyInput);
    }
    if buf[pos] != '{' {
        return Err(ParserError::InvalidSyntax("Object must start with '{'".to_owned()));
    }
    let mut at = scan(buf, pos + 1, CharClass::Whitespace);
    let mut members: StringMap<JsonType> = StringMap::new();
    let ghost mut before: Seq<(Seq<char>, JsonTree)> = Seq::empty();
    assert(object_view(members) =~= pairs_map(member_values(before)));
    loop
        invariant
            pos < at <= len,
            len == buf@.len(),
            object_view(members) == pairs_map(member_values(before)),
            object_at(buf@, pos as int) == shifted(
                members_at(buf@, at as int, before),
                (at - pos) as nat,
            ),
        decreases len - at,
    {
        if at >= len {
            return Err(ParserError::EmptyInput);
        }
        if buf[at] == '}' {
            return Ok((members, at + 1));
        }
        let (name, colon) = match parse_string(buf, at) {
            Ok(found) => found,
            Err(e) => {
                return Err(e);
            },
        };
        if colon >= len {
            return Err(ParserError::EmptyInput);
        }
        if buf[colon] != ':' {
            return Err(ParserError::MissingToken("Expected ':' after key".to_owned()));
        }
        let start = scan(buf, colon + 1, CharClass::Whitespace);
        if start >= len {
            return Err(ParserError::EmptyInput);
        }
        let (value, end) = match parse_value(buf, start, false) {
            Ok(found) => found,
            Err(e) => {
                return Err(e);
            },
        };
        let ghost tree = value_at(buf@, start as int, false)->Ok_0.0;
        let ghost grown = before.push((name@, tree));
        proof {
            let old_map = object_view(members);
            assert(member_values(grown).drop_last() =~= member_values(before));
            assert(member_values(grown).last() == (name@, tree.value()));
            assert(pairs_map(member_values(grown)) == old_map.insert(name@, value@));
        }
        let ghost old_members = members;
        members.insert(name, value);
        proof {
            assert(object_view(members) =~= object_view(old_members).insert(name@, value@));
        }
        let mark = scan(buf, end, CharClass::Whitespace);
        if mark >= len {
            return Err(ParserError::EmptyInput);
        }
        let next = scan(buf, mark + 1, CharClass::Whitespace);
        if buf[mark] == '}' {
            return Ok((members, next));
        }
        if buf[mark] != ',' {
            return Err(
                ParserError::UnexpectedToken(
                    join_char("Expected ',' or '}' in object, found: ", buf[mark]),
                ),
            );
        }
        proof {
            before = grown;
        }
        at = next;
    }
}

/// Reads the array that opens at `pos` and returns its items and the
/// position behind it.
pub fn parse_array(buf: &[char], pos: usize) -> (r: Result<(Vec<JsonType>, usize), ParserError>)
    requires
        pos <= buf@.len(),
    ensures
        match r {
            Ok((items, next)) => array_at(buf@, pos as int) matches Ok((written, n))
                && array_view(items) == item_values(written) && next == pos + n && next
                <= buf@.len(),
            Err(e) => array_at(buf@, pos as int) == Err::<(Seq<JsonTree>, nat), ParserFault>(e@),
        },
    decreases buf@.len() - pos, 1int,
{
    let len = buf.len();
    if pos >= len {
        return Err(ParserError::EmptyInput);
    }
    if buf[pos] != '[' {
        return Err(ParserError::InvalidSyntax("Array must start with '['".to_owned()));
    }
    let mut at = scan(buf, pos + 1, CharClass::Whitespace);
    let mut items: Vec<JsonType> = Vec::new();
    let ghost mut before: Seq<JsonTree> = Seq::empty();
    assert(array_view(items) =~= item_values(before));
    loop
        invariant
            pos < at <= len,
            len == buf@.len(),
            array_view(items) == item_values(before),
            array_at(buf@, pos as int) == shifted(
                items_at(buf@, at as int, before),
                (at - pos) as nat,
            ),
        decreases len - at,
    {
        if at >= len {
            return Err(ParserError::EmptyInput);
        }
        if buf[at] == ']' {
            return Ok((items, at));
        }
        let (value, end) = match parse_value(buf, at, true) {
            Ok(found) => found,
            Err(e) => {
                return Err(e);
            },
        };
        let ghost tree = value_at(buf@, at as int, true)->Ok_0.0;
        let ghost grown = before.push(tree);
        let ghost old_items = items;
        items.push(value);
        proof {
            assert(array_view(items) =~= array_view(old_items).push(value@));
            assert(item_values(grown) =~= item_values(before).push(tree.value()));
        }
        let mark = scan(buf, end, CharClass::Whitespace);
        if mark >= len {
            return Err(ParserError::EmptyInput);
        }
        let next = scan(buf, mark + 1, CharClass::Whitespace);
        if buf[mark] == ']' {
            return Ok((items, next));
        }
        if buf[mark] != ',' {
            return Err(
                ParserError::UnexpectedToken(
                    join_char("Expected ',' or ']' in array, found: ", buf[mark]),
                ),
            );
        }
        proof {
            before = grown;
        }
        at = next;
    }
}

/// Reads a JSON text: an object or an array, after any white space.
pub fn parse_json(input: &str) -> (r: Result<JsonType, ParserError>)
    ensures
        match r {
            Ok(value) => json_of(input@) == Ok::<JsonValue, ParserFault>(value@),
            Err(e) => json_of(input@) == Err::<JsonValue, ParserFault>(e@),
        },
{
    let chars = to_chars(input);
    let buf = chars.as_slice();
    let start = scan(buf, 0, CharClass::Whitespace);
    if start >= buf.len() {
        return Err(ParserError::EmptyInput);
    }
    if buf[start] == '{' {
        match parse_object(buf, start) {
            Ok((members, _)) => Ok(JsonType::Object(members)),
            Err(e) => Err(e),
        }
    } else if buf[start] == '[' {
        match parse_array(buf, start) {
            Ok((items, _)) => Ok(JsonType::Array(items)),
            Err(e) => Err(e),
        }
    } else {
        Err(ParserError::UnexpectedToken(join_char("Unexpected token: ", buf[start])))
    }
}

} // verus!
