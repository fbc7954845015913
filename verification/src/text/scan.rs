//! Classes of characters and the runs they form in a text.

use vstd::prelude::*;

verus! {

/// Whether `c` is white space: the code points that Unicode marks `White_Space`.
pub open spec fn is_whitespace(c: char) -> bool {
    ||| '\u{9}' <= c <= '\u{d}'
    ||| c == ' '
    ||| c == '\u{85}'
    ||| c == '\u{a0}'
    ||| c == '\u{1680}'
    ||| '\u{2000}' <= c <= '\u{200a}'
    ||| c == '\u{2028}'
    ||| c == '\u{2029}'
    ||| c == '\u{202f}'
    ||| c == '\u{205f}'
    ||| c == '\u{3000}'
}

/// Whether `c` is one of the ten decimal digits.
pub open spec fn is_digit(c: char) -> bool {
    '0' <= c <= '9'
}

/// A set of characters that a scan can run over.
#[derive(Clone, Copy, Debug)]
pub enum CharClass {
    /// White space.
    Whitespace,
    /// Everything but white space.
    Visible,
    /// The decimal digits.
    Digit,
    /// What a number token is made of: digits, `-` and `.`.
    Numeric,
    /// Every character but the given one.
    Except(char),
}

impl CharClass {
    /// Whether `c` belongs to the class.
    pub open spec fn holds(self, c: char) -> bool {
        match self {
            CharClass::Whitespace => is_whitespace(c),
            CharClass::Visible => !is_whitespace(c),
            CharClass::Digit => is_digit(c),
            CharClass::Numeric => is_digit(c) || c == '-' || c == '.',
            CharClass::Except(x) => c != x,
        }
    }

    /// Tests whether `c` belongs to the class.
    pub fn contains(&self, c: char) -> (r: bool)
        ensures
            r == self.holds(c),
    {
        match self {
            CharClass::Whitespace => whitespace(c),
            CharClass::Visible => !whitespace(c),
            CharClass::Digit => '0' <= c && c <= '9',
            CharClass::Numeric => ('0' <= c && c <= '9') || c == '-' || c == '.',
            CharClass::Except(x) => c != *x,
        }
    }
}

/// Tests whether `c` is white space.
pub fn whitespace(c: char) -> (r: bool)
    ensures
        r == is_whitespace(c),
{
    ('\u{9}' <= c && c <= '\u{d}') || c == ' ' || c == '\u{85}' || c == '\u{a0}' || c == '\u{1680}'
        || ('\u{2000}' <= c && c <= '\u{200a}') || c == '\u{2028}' || c == '\u{2029}' || c
        == '\u{202f}' || c == '\u{205f}' || c == '\u{3000}'
}

/// How many characters of `class` stand in `s` from `pos` on, without a gap.
pub open spec fn run_len(s: Seq<char>, pos: int, class: CharClass) -> nat
    decreases s.len() - pos,
{
    if 0 <= pos < s.len() && class.holds(s[pos]) {
        1 + run_len(s, pos + 1, class)
    } else {
        0
    }
}

/// A run ends inside the text, holds only characters of its class, and is
/// followed by a character outside the class or by the end of the text.
pub proof fn lemma_run_len(s: Seq<char>, pos: int, class: CharClass)
    requires
        0 <= pos <= s.len(),
    ensures
        pos + run_len(s, pos, class) <= s.len(),
        forall|i: int| pos <= i < pos + run_len(s, pos, class) ==> class.holds(#[trigger] s[i]),
        pos + run_len(s, pos, class) < s.len() ==> !class.holds(s[pos + run_len(s, pos, class)]),
    decreases s.len() - pos,
{
    if pos < s.len() && class.holds(s[pos]) {
        lemma_run_len(s, pos + 1, class);
    }
}

/// The run from `pos` is the only stretch that holds characters of the class
/// alone and cannot be extended.
pub proof fn lemma_run_len_unique(s: Seq<char>, pos: int, class: CharClass, n: nat)
    requires
        0 <= pos,
        pos + n <= s.len(),
        forall|i: int| pos <= i < pos + n ==> class.holds(#[trigger] s[i]),
        pos + n < s.len() ==> !class.holds(s[pos + n]),
    ensures
        run_len(s, pos, class) == n,
    decreases n,
{
    if n > 0 {
        lemma_run_len_unique(s, pos + 1, class, (n - 1) as nat);
    }
}

/// Whether the characters of `word` stand in `s` from `pos` on.
pub open spec fn word_at(s: Seq<char>, pos: int, word: Seq<char>) -> bool {
    0 <= pos && pos + word.len() <= s.len() && s.subrange(pos, pos + word.len()) == word
}

/// Where a word stands in a text, each of its characters stands at its
/// place.
pub proof fn lemma_word_at(s: Seq<char>, pos: int, word: Seq<char>)
    requires
        word_at(s, pos, word),
    ensures
        forall|i: int| 0 <= i < word.len() ==> s[pos + i] == #[trigger] word[i],
{
    assert forall|i: int| 0 <= i < word.len() implies s[pos + i] == #[trigger] word[i] by {
        assert(s.subrange(pos, pos + word.len())[i] == s[pos + i]);
    }
}

/// Where two words stand in a text one behind the other, each of them stands
/// at its place.
pub proof fn lemma_word_at_parts(s: Seq<char>, pos: int, a: Seq<char>, b: Seq<char>)
    requires
        word_at(s, pos, a + b),
    ensures
        word_at(s, pos, a),
        word_at(s, pos + a.len(), b),
{
    lemma_word_at(s, pos, a + b);
    assert forall|i: int| 0 <= i < a.len() implies s[pos + i] == a[i] by {
        assert((a + b)[i] == a[i]);
    }
    assert forall|i: int| 0 <= i < b.len() implies s[pos + a.len() + i] == b[i] by {
        assert((a + b)[a.len() + i] == b[i]);
    }
    assert(s.subrange(pos, pos + a.len()) =~= a);
    assert(s.subrange(pos + a.len(), pos + a.len() + b.len()) =~= b);
}

/// Scans `buf` from `pos` over the characters of `class` and returns where
/// the run ends.
pub fn scan(buf: &[char], pos: usize, class: CharClass) -> (end: usize)
    requires
        pos <= buf@.len(),
    ensures
        end == pos + run_len(buf@, pos as int, class),
        pos <= end <= buf@.len(),
{
    let mut i: usize = pos;
    while i < buf.len() && class.contains(buf[i])
        invariant
            pos <= i <= buf@.len(),
            forall|j: int| pos <= j < i ==> class.holds(#[trigger] buf@[j]),
        decreases buf@.len() - i,
    {
        i += 1;
    }
    proof {
        lemma_run_len_unique(buf@, pos as int, class, (i - pos) as nat);
    }
    i
}

} // verus!
