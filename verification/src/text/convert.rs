//! Moving between `str`, `String` and buffers of characters.

use vstd::prelude::*;
use vstd::std_specs::iter::IteratorSpec;

verus! {

/// `String::push` of the standard library: the string afterwards is the
/// string before with `c` appended. Verus takes this on trust.
pub assume_specification[ std::string::String::push ](s: &mut std::string::String, c: char)
    ensures
        final(s)@ == old(s)@.push(c),
;

/// The lower-case form of a text, as `str::to_lowercase` of the standard
/// library gives it. It follows the case mappings of Unicode, which this
/// library does not spell out.
pub uninterp spec fn lowercase_of(s: Seq<char>) -> Seq<char>;

/// Calls `str::to_lowercase` of the standard library. That the result is the
/// lower-case form of `s` is taken on trust; it depends on the characters of
/// `s` alone.
#[verifier::external_body]
pub(crate) fn lowercase(s: &str) -> (r: String)
    ensures
        r@ == lowercase_of(s@),
{
    s.to_lowercase()
}

/// The characters of `s`, in order.
pub fn to_chars(s: &str) -> (r: Vec<char>)
    ensures
        r@ == s@,
{
    let mut out: Vec<char> = Vec::new();
    for c in it: s.chars()
        invariant
            it.seq() == s@,
            out@ =~= s@.take(it.index() as int),
    {
        out.push(c);
    }
    out
}

/// Appends the characters of `chars` to `out`.
pub fn push_chars(out: &mut String, chars: &[char])
    ensures
        final(out)@ == old(out)@ + chars@,
{
    let mut i: usize = 0;
    while i < chars.len()
        invariant
            i <= chars@.len(),
            out@ == old(out)@ + chars@.take(i as int),
        decreases chars@.len() - i,
    {
        out.push(chars[i]);
        i += 1;
        assert(chars@.take(i as int) == chars@.take(i - 1).push(chars@[i - 1]));
    }
    assert(chars@.take(i as int) == chars@);
}

/// A string that holds the characters of `chars`.
pub fn to_text(chars: &[char]) -> (r: String)
    ensures
        r@ == chars@,
{
    let mut out = String::new();
    push_chars(&mut out, chars);
    out
}

/// The string `prefix` followed by the characters of `detail`.
pub fn join_text(prefix: &str, detail: &[char]) -> (r: String)
    ensures
        r@ == prefix@ + detail@,
{
    let mut out = prefix.to_owned();
    push_chars(&mut out, detail);
    out
}

/// The string `prefix` followed by the character `c`.
pub fn join_char(prefix: &str, c: char) -> (r: String)
    ensures
        r@ == prefix@.push(c),
{
    let mut out = prefix.to_owned();
    out.push(c);
    out
}

/// Whether `chars` spells the string `s`.
pub fn spells(chars: &[char], s: &str) -> (r: bool)
    ensures
        r == (chars@ == s@),
{
    let mut rest = s.chars();
    let mut i: usize = 0;
    while i < chars.len()
        invariant
            i <= chars@.len(),
            i <= s@.len(),
            rest.remaining() == s@.skip(i as int),
            chars@.take(i as int) =~= s@.take(i as int),
        decreases chars@.len() - i,
    {
        match rest.next() {
            Some(c) => {
                if c != chars[i] {
                    return false;
                }
            },
            None => {
                return false;
            },
        }
        assert(s@.skip(i as int).drop_first() =~= s@.skip(i + 1));
        assert(chars@.take(i + 1) =~= chars@.take(i as int).push(chars@[i as int]));
        assert(s@.take(i + 1) =~= s@.take(i as int).push(s@[i as int]));
        i += 1;
    }
    assert(chars@.take(i as int) =~= chars@);
    match rest.next() {
        Some(_) => false,
        None => {
            assert(s@.take(i as int) =~= s@);
            true
        },
    }
}

} // verus!
