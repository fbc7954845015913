//! How a tree is written as text without white space, and the proof that
//! the grammar reads such a text as the tree that was written.

use crate::json::grammar::{
    array_at, boolean_at, document, items_at, json_of, member_values, members_at, number_at,
    object_at, string_at, value_at, JsonTree,
};
use crate::json::value::{JsonValue, ParserFault};
use crate::string_map::pairs_map;
use crate::text::number::{
    decimal_digits, integer_value, is_decimal_literal, lemma_decimal_digits_value,
};
use crate::text::scan::{
    is_digit, is_whitespace, lemma_run_len, lemma_run_len_unique, lemma_word_at,
    lemma_word_at_parts, run_len, word_at, CharClass,
};
use vstd::prelude::*;

verus! {

/// The integer `n` in decimal digits, with a `-` before them where it is
/// below zero.
pub open spec fn written_integer(n: int) -> Seq<char> {
    if n < 0 {
        seq!['-'] + decimal_digits((-n) as nat)
    } else {
        decimal_digits(n as nat)
    }
}

/// A tree as text, without white space: the members of an object and the
/// items of an array with a comma between two of them.
pub open spec fn written(tree: JsonTree) -> Seq<char>
    decreases tree,
{
    match tree {
        JsonTree::Object(members) => seq!['{'] + written_members(members) + seq!['}'],
        JsonTree::Array(items) => seq!['['] + written_items(items) + seq![']'],
        JsonTree::String(s) => seq!['"'] + s + seq!['"'],
        JsonTree::Number(n) => written_integer(n),
        JsonTree::Decimal(s) => s,
        JsonTree::Boolean(b) => if b {
            "true"@
        } else {
            "false"@
        },
    }
}

/// The members of an object as text: of each its name in quotes, a colon and
/// its value, and a comma between two members.
pub open spec fn written_members(members: Seq<(Seq<char>, JsonTree)>) -> Seq<char>
    decreases members,
{
    if members.len() == 0 {
        Seq::empty()
    } else {
        let first = seq!['"'] + members[0].0 + seq!['"', ':'] + written(members[0].1);
        if members.len() == 1 {
            first
        } else {
            first + seq![','] + written_members(members.drop_first())
        }
    }
}

/// The items of an array as text, with a comma between two items.
pub open spec fn written_items(items: Seq<JsonTree>) -> Seq<char>
    decreases items,
{
    if items.len() == 0 {
        Seq::empty()
    } else if items.len() == 1 {
        written(items[0])
    } else {
        written(items[0]) + seq![','] + written_items(items.drop_first())
    }
}

/// Whether the tree can be written so that the grammar reads it again: no
/// string and no name holds a quote, every integer fits 64 bits, every
/// decimal is written as one and does not start with its point, and an array
/// holds no array and is not empty.
pub open spec fn writable(tree: JsonTree) -> bool
    decreases tree,
{
    match tree {
        JsonTree::Object(members) => forall|i: int|
            0 <= i < members.len() ==> !(#[trigger] members[i]).0.contains('"') && writable(
                members[i].1,
            ),
        JsonTree::Array(items) => items.len() > 0 && forall|i: int|
            0 <= i < items.len() ==> !((#[trigger] items[i]) is Array) && writable(items[i]),
        JsonTree::String(s) => !s.contains('"'),
        JsonTree::Number(n) => i64::MIN <= n <= i64::MAX,
        JsonTree::Decimal(s) => is_decimal_literal(s) && s[0] != '.',
        JsonTree::Boolean(_) => true,
    }
}

/// Whether `c` can stand right behind a value: a comma or a closing bracket.
pub open spec fn closes(c: char) -> bool {
    c == ',' || c == '}' || c == ']'
}

/// Whether `c` is the character that the text of `tree` starts with, as far
/// as the kind of the tree tells it.
pub open spec fn opens(tree: JsonTree, c: char) -> bool {
    match tree {
        JsonTree::Object(_) => c == '{',
        JsonTree::Array(_) => c == '[',
        JsonTree::String(_) => c == '"',
        JsonTree::Number(_) => is_digit(c) || c == '-',
        JsonTree::Decimal(_) => is_digit(c) || c == '-',
        JsonTree::Boolean(b) => c == (if b {
            't'
        } else {
            'f'
        }),
    }
}

proof fn lemma_decimal_written(t: Seq<char>)
    requires
        is_decimal_literal(t),
    ensures
        t.len() > 0,
        t.contains('.'),
        forall|i: int| 0 <= i < t.len() ==> CharClass::Numeric.holds(#[trigger] t[i]),
{
    let start: int = if t.len() > 0 && t[0] == '-' {
        1
    } else {
        0
    };
    let point = start + run_len(t, start, CharClass::Digit);
    lemma_run_len(t, start, CharClass::Digit);
    lemma_run_len(t, point + 1, CharClass::Digit);
    assert(t[point] == '.');
}

proof fn lemma_integer_written(n: int)
    ensures
        written_integer(n).len() > 0,
        !written_integer(n).contains('.'),
        forall|i: int|
            0 <= i < written_integer(n).len() ==> CharClass::Numeric.holds(
                #[trigger] written_integer(n)[i],
            ),
        is_digit(written_integer(n)[0]) || written_integer(n)[0] == '-',
        integer_value(written_integer(n)) == Some(n),
{
    let w = written_integer(n);
    if n < 0 {
        let digits = decimal_digits((-n) as nat);
        lemma_decimal_digits_value((-n) as nat);
        assert(w.skip(1) =~= digits);
        assert forall|i: int| 0 <= i < w.len() implies CharClass::Numeric.holds(
            #[trigger] w[i],
        ) by {
            if i > 0 {
                assert(w[i] == digits[i - 1]);
            }
        }
    } else {
        lemma_decimal_digits_value(n as nat);
        assert(is_digit(w[0]));
    }
    if w.contains('.') {
        let i = choose|i: int| 0 <= i < w.len() && w[i] == '.';
        assert(CharClass::Numeric.holds(w[i]));
        if n < 0 {
            assert(i > 0 ==> w[i] == decimal_digits((-n) as nat)[i - 1]);
        }
    }
}

/// The text of a tree that can be written is not empty and starts with the
/// character that tells its kind.
proof fn lemma_first_char(tree: JsonTree)
    requires
        writable(tree),
    ensures
        written(tree).len() > 0,
        opens(tree, written(tree)[0]),
{
    match tree {
        JsonTree::Number(n) => {
            lemma_integer_written(n);
        },
        JsonTree::Decimal(t) => {
            lemma_decimal_written(t);
            assert(CharClass::Numeric.holds(t[0]));
        },
        JsonTree::Boolean(b) => {
            reveal_strlit("true");
            reveal_strlit("false");
        },
        _ => {},
    }
}

proof fn lemma_string_reads(s: Seq<char>, pos: int, t: Seq<char>)
    requires
        !t.contains('"'),
        word_at(s, pos, seq!['"'] + t + seq!['"']),
    ensures
        string_at(s, pos) == Ok::<(Seq<char>, nat), ParserFault>((t, t.len() + 2)),
{
    let w = seq!['"'] + t + seq!['"'];
    lemma_word_at(s, pos, w);
    let n = t.len() as int;
    assert(w[0] == '"');
    assert(w[n + 1] == '"');
    assert forall|i: int| pos + 1 <= i < pos + 1 + t.len() implies CharClass::Except('"').holds(
        #[trigger] s[i],
    ) by {
        assert(s[pos + (i - pos)] == w[i - pos]);
        assert(w[i - pos] == t[i - pos - 1]);
    }
    assert(s[pos + (n + 1)] == '"');
    lemma_run_len_unique(s, pos + 1, CharClass::Except('"'), t.len());
    assert forall|i: int| 0 <= i < t.len() implies s[pos + 1 + i] == t[i] by {
        assert(s[pos + (i + 1)] == w[i + 1]);
    }
    assert(s.subrange(pos + 1, pos + 1 + t.len()) =~= t);
}

proof fn lemma_boolean_reads(s: Seq<char>, pos: int, b: bool)
    requires
        word_at(s, pos, written(JsonTree::Boolean(b))),
    ensures
        boolean_at(s, pos) == Ok::<(bool, nat), ParserFault>(
            (b, written(JsonTree::Boolean(b)).len()),
        ),
{
    reveal_strlit("true");
    reveal_strlit("false");
    lemma_word_at(s, pos, written(JsonTree::Boolean(b)));
    assert(s[pos + 0] == written(JsonTree::Boolean(b))[0]);
}

proof fn lemma_number_reads(s: Seq<char>, pos: int, tree: JsonTree)
    requires
        tree is Number || tree is Decimal,
        writable(tree),
        word_at(s, pos, written(tree)),
        pos + written(tree).len() < s.len(),
        closes(s[pos + written(tree).len()]),
    ensures
        number_at(s, pos) == Ok::<(JsonTree, nat), ParserFault>((tree, written(tree).len())),
{
    let w = written(tree);
    match tree {
        JsonTree::Number(n) => {
            lemma_integer_written(n);
        },
        JsonTree::Decimal(t) => {
            lemma_decimal_written(t);
        },
        _ => {},
    }
    lemma_word_at(s, pos, w);
    assert forall|i: int| pos <= i < pos + w.len() implies CharClass::Numeric.holds(
        #[trigger] s[i],
    ) by {
        assert(s[pos + (i - pos)] == w[i - pos]);
    }
    lemma_run_len_unique(s, pos, CharClass::Numeric, w.len());
}

/// A value that is written at `pos`, with a comma or a closing bracket
/// behind it, is read at `pos` as it was written.
pub proof fn lemma_value_reads(s: Seq<char>, pos: int, tree: JsonTree, in_array: bool)
    requires
        writable(tree),
        word_at(s, pos, written(tree)),
        pos + written(tree).len() < s.len(),
        closes(s[pos + written(tree).len()]),
        in_array ==> !(tree is Array),
    ensures
        value_at(s, pos, in_array) == Ok::<(JsonTree, nat), ParserFault>(
            (tree, written(tree).len()),
        ),
    decreases tree, 0int,
{
    let w = written(tree);
    lemma_first_char(tree);
    lemma_word_at(s, pos, w);
    assert(s[pos + 0] == w[0]);
    match tree {
        JsonTree::Object(members) => {
            lemma_object_reads(s, pos, members);
        },
        JsonTree::Array(items) => {
            lemma_array_reads(s, pos, items);
        },
        JsonTree::String(t) => {
            lemma_string_reads(s, pos, t);
        },
        JsonTree::Boolean(b) => {
            lemma_boolean_reads(s, pos, b);
        },
        JsonTree::Number(_) => {
            lemma_number_reads(s, pos, tree);
        },
        JsonTree::Decimal(_) => {
            lemma_number_reads(s, pos, tree);
        },
    }
}

/// An object that is written at `pos`, with no white space behind it, is
/// read at `pos` with its members as they were written.
pub proof fn lemma_object_reads(s: Seq<char>, pos: int, members: Seq<(Seq<char>, JsonTree)>)
    requires
        writable(JsonTree::Object(members)),
        word_at(s, pos, written(JsonTree::Object(members))),
        pos + written(JsonTree::Object(members)).len() == s.len() || !is_whitespace(
            s[pos + written(JsonTree::Object(members)).len()],
        ),
    ensures
        object_at(s, pos) == Ok::<(Seq<(Seq<char>, JsonTree)>, nat), ParserFault>(
            (members, written(JsonTree::Object(members)).len()),
        ),
    decreases members, 1int,
{
    let inner = written_members(members);
    let w = seq!['{'] + inner + seq!['}'];
    lemma_word_at(s, pos, w);
    assert(s[pos + 0] == w[0]);
    assert(w =~= seq!['{'] + (inner + seq!['}']));
    lemma_word_at_parts(s, pos, seq!['{'], inner + seq!['}']);
    if members.len() == 0 {
        assert(s[pos + 1] == w[1]);
        assert(members_at(s, pos + 1, Seq::empty()) == Ok::<
            (Seq<(Seq<char>, JsonTree)>, nat),
            ParserFault,
        >((Seq::empty(), 1)));
        assert(members =~= Seq::empty());
    } else {
        lemma_first_member_char(members);
        assert(s[pos + 1] == w[1]);
        assert(w[1] == inner[0]);
        lemma_members_read(s, pos + 1, Seq::empty(), members);
        assert(Seq::<(Seq<char>, JsonTree)>::empty() + members =~= members);
    }
}

proof fn lemma_members_writable(members: Seq<(Seq<char>, JsonTree)>)
    requires
        writable(JsonTree::Object(members)),
    ensures
        forall|i: int|
            0 <= i < members.len() ==> {
                let member = #[trigger] members[i];
                !member.0.contains('"') && writable(member.1)
            },
{
    let whole = JsonTree::Object(members);
    assert(whole->Object_0 == members);
}

proof fn lemma_first_member_char(members: Seq<(Seq<char>, JsonTree)>)
    requires
        members.len() > 0,
    ensures
        written_members(members).len() > 0,
        written_members(members)[0] == '"',
{
}

/// The members `rest` of an object, written at `pos` with the closing brace
/// and no white space behind it, are read at `pos` as they were written,
/// behind the members that were read before.
proof fn lemma_members_read(
    s: Seq<char>,
    pos: int,
    before: Seq<(Seq<char>, JsonTree)>,
    rest: Seq<(Seq<char>, JsonTree)>,
)
    requires
        rest.len() > 0,
        writable(JsonTree::Object(rest)),
        word_at(s, pos, written_members(rest) + seq!['}']),
        pos + written_members(rest).len() + 1 == s.len() || !is_whitespace(
            s[pos + written_members(rest).len() + 1],
        ),
    ensures
        members_at(s, pos, before) == Ok::<(Seq<(Seq<char>, JsonTree)>, nat), ParserFault>(
            (before + rest, written_members(rest).len() + 1),
        ),
    decreases rest, 0int,
{
    let name = rest[0].0;
    let tree = rest[0].1;
    let quoted = seq!['"'] + name + seq!['"'];
    let value = written(tree);
    let later = rest.drop_first();
    let tail = if rest.len() == 1 {
        seq!['}']
    } else {
        seq![','] + written_members(later) + seq!['}']
    };
    let all = written_members(rest) + seq!['}'];
    lemma_members_writable(rest);
    lemma_first_char(tree);
    assert(all =~= quoted + seq![':'] + value + tail);
    lemma_word_at_parts(s, pos, quoted + seq![':'] + value, tail);
    lemma_word_at_parts(s, pos, quoted + seq![':'], value);
    lemma_word_at_parts(s, pos, quoted, seq![':']);
    lemma_string_reads(s, pos, name);
    let colon = pos + name.len() + 2;
    let start = colon + 1;
    let end = start + value.len();
    lemma_word_at(s, pos, quoted);
    assert(s[pos + 0] == quoted[0]);
    assert(quoted.len() == name.len() + 2);
    lemma_word_at(s, colon, seq![':']);
    assert(s[colon + 0] == seq![':'][0]);
    lemma_word_at(s, start, value);
    assert(s[start + 0] == value[0]);
    lemma_word_at(s, end, tail);
    assert(s[end + 0] == tail[0]);
    assert(run_len(s, colon + 1, CharClass::Whitespace) == 0);
    lemma_value_reads(s, start, tree, false);
    assert(run_len(s, end, CharClass::Whitespace) == 0);
    let members = before.push((name, tree));
    if rest.len() == 1 {
        assert(run_len(s, end + 1, CharClass::Whitespace) == 0);
        assert(members =~= before + rest);
    } else {
        assert(writable(JsonTree::Object(later))) by {
            assert forall|i: int| 0 <= i < later.len() implies !(#[trigger] later[i]).0.contains(
                '"',
            ) && writable(later[i].1) by {
                assert(later[i] == rest[i + 1]);
                assert(!rest[i + 1].0.contains('"') && writable(rest[i + 1].1));
            }
        }
        lemma_first_member_char(later);
        assert(tail =~= seq![','] + (written_members(later) + seq!['}']));
        lemma_word_at_parts(s, end, seq![','], written_members(later) + seq!['}']);
        lemma_word_at(s, end + 1, written_members(later) + seq!['}']);
        assert(s[end + 1 + 0] == (written_members(later) + seq!['}'])[0]);
        assert(run_len(s, end + 1, CharClass::Whitespace) == 0);
        lemma_members_read(s, end + 1, members, later);
        assert(members + later =~= before + rest);
    }
}

/// An array that is written at `pos`, with no white space behind it, is read
/// at `pos` with its items as they were written.
pub proof fn lemma_array_reads(s: Seq<char>, pos: int, items: Seq<JsonTree>)
    requires
        writable(JsonTree::Array(items)),
        word_at(s, pos, written(JsonTree::Array(items))),
        pos + written(JsonTree::Array(items)).len() == s.len() || !is_whitespace(
            s[pos + written(JsonTree::Array(items)).len()],
        ),
    ensures
        array_at(s, pos) == Ok::<(Seq<JsonTree>, nat), ParserFault>(
            (items, written(JsonTree::Array(items)).len()),
        ),
    decreases items, 1int,
{
    let inner = written_items(items);
    let w = seq!['['] + inner + seq![']'];
    lemma_word_at(s, pos, w);
    assert(s[pos + 0] == w[0]);
    assert(w =~= seq!['['] + (inner + seq![']']));
    lemma_word_at_parts(s, pos, seq!['['], inner + seq![']']);
    lemma_first_item_char(items);
    assert(s[pos + 1] == w[1]);
    assert(w[1] == inner[0]);
    lemma_items_read(s, pos + 1, Seq::empty(), items);
    assert(Seq::<JsonTree>::empty() + items =~= items);
}

proof fn lemma_first_item_char(items: Seq<JsonTree>)
    requires
        writable(JsonTree::Array(items)),
    ensures
        written_items(items).len() > 0,
        !is_whitespace(written_items(items)[0]),
        written_items(items)[0] != ']',
{
    assert(writable(items[0]));
    lemma_first_char(items[0]);
}

/// The items `rest` of an array, written at `pos` with the closing bracket
/// and no white space behind it, are read at `pos` as they were written,
/// behind the items that were read before.
proof fn lemma_items_read(s: Seq<char>, pos: int, before: Seq<JsonTree>, rest: Seq<JsonTree>)
    requires
        writable(JsonTree::Array(rest)),
        word_at(s, pos, written_items(rest) + seq![']']),
        pos + written_items(rest).len() + 1 == s.len() || !is_whitespace(
            s[pos + written_items(rest).len() + 1],
        ),
    ensures
        items_at(s, pos, before) == Ok::<(Seq<JsonTree>, nat), ParserFault>(
            (before + rest, written_items(rest).len() + 1),
        ),
    decreases rest, 0int,
{
    let tree = rest[0];
    let value = written(tree);
    let later = rest.drop_first();
    let tail = if rest.len() == 1 {
        seq![']']
    } else {
        seq![','] + written_items(later) + seq![']']
    };
    let all = written_items(rest) + seq![']'];
    assert(writable(tree) && !(tree is Array)) by {
        assert(!(rest[0] is Array) && writable(rest[0]));
    }
    lemma_first_char(tree);
    assert(all =~= value + tail);
    lemma_word_at_parts(s, pos, value, tail);
    let end = pos + value.len();
    lemma_word_at(s, pos, value);
    assert(s[pos + 0] == value[0]);
    lemma_word_at(s, end, tail);
    assert(s[end + 0] == tail[0]);
    lemma_value_reads(s, pos, tree, true);
    assert(run_len(s, end, CharClass::Whitespace) == 0);
    let items = before.push(tree);
    if rest.len() == 1 {
        assert(run_len(s, end + 1, CharClass::Whitespace) == 0);
        assert(items =~= before + rest);
    } else {
        assert(writable(JsonTree::Array(later))) by {
            assert forall|i: int| 0 <= i < later.len() implies !((#[trigger] later[i]) is Array)
                && writable(later[i]) by {
                assert(later[i] == rest[i + 1]);
            }
        }
        lemma_first_item_char(later);
        assert(tail =~= seq![','] + (written_items(later) + seq![']']));
        lemma_word_at_parts(s, end, seq![','], written_items(later) + seq![']']);
        lemma_word_at(s, end + 1, written_items(later) + seq![']']);
        assert(s[end + 1 + 0] == (written_items(later) + seq![']'])[0]);
        assert(run_len(s, end + 1, CharClass::Whitespace) == 0);
        lemma_items_read(s, end + 1, items, later);
        assert(items + later =~= before + rest);
    }
}

/// An object that is written as text reads as the object that was written:
/// its value has exactly the names of the written members, and under each
/// name the value of the last member with that name.
pub proof fn lemma_written_object(members: Seq<(Seq<char>, JsonTree)>)
    requires
        writable(JsonTree::Object(members)),
    ensures
        document(written(JsonTree::Object(members))) == Ok::<JsonTree, ParserFault>(
            JsonTree::Object(members),
        ),
        json_of(written(JsonTree::Object(members))) == Ok::<JsonValue, ParserFault>(
            JsonValue::Object(pairs_map(member_values(members))),
        ),
{
    let s = written(JsonTree::Object(members));
    assert(s[0] == '{');
    assert(s.subrange(0, s.len() as int) =~= s);
    lemma_object_reads(s, 0, members);
}

/// An array that is written as text reads as the array that was written.
pub proof fn lemma_written_array(items: Seq<JsonTree>)
    requires
        writable(JsonTree::Array(items)),
    ensures
        document(written(JsonTree::Array(items))) == Ok::<JsonTree, ParserFault>(
            JsonTree::Array(items),
        ),
{
    let s = written(JsonTree::Array(items));
    assert(s[0] == '[');
    assert(s.subrange(0, s.len() as int) =~= s);
    lemma_array_reads(s, 0, items);
}

} // verus!
