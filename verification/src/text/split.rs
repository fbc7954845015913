//! Cutting a text into lines, into words, and free of the white space around
//! it.

use crate::text::scan::{
    lemma_run_len, lemma_run_len_unique, lemma_word_at, lemma_word_at_parts, run_len, scan, word_at,
    CharClass,
};
use vstd::prelude::*;

verus! {

/// How many characters of `class` stand at the end of `s`, without a gap.
pub open spec fn trailing_run(s: Seq<char>, class: CharClass) -> nat
    decreases s.len(),
{
    if s.len() > 0 && class.holds(s.last()) {
        1 + trailing_run(s.drop_last(), class)
    } else {
        0
    }
}

/// `s` without the white space at its start.
pub open spec fn trimmed_start(s: Seq<char>) -> Seq<char> {
    s.skip(run_len(s, 0, CharClass::Whitespace) as int)
}

/// `s` without the white space at its end.
pub open spec fn trimmed_end(s: Seq<char>) -> Seq<char> {
    s.take(s.len() - trailing_run(s, CharClass::Whitespace))
}

/// `s` without the white space at its start and at its end.
pub open spec fn trimmed(s: Seq<char>) -> Seq<char> {
    trimmed_end(trimmed_start(s))
}

/// `line` without the carriage return at its end, if it has one.
pub open spec fn without_return(line: Seq<char>) -> Seq<char> {
    if line.len() > 0 && line.last() == '\r' {
        line.drop_last()
    } else {
        line
    }
}

/// The lines of `s` from `pos` on. A line feed ends a line and is left out,
/// and so is a carriage return right before it. What stands behind the last
/// line feed is a line too, unless it is empty.
pub open spec fn lines_from(s: Seq<char>, pos: int) -> Seq<Seq<char>>
    decreases s.len() - pos,
{
    if pos < 0 || pos >= s.len() {
        Seq::empty()
    } else {
        let end = pos + run_len(s, pos, CharClass::Except('\n'));
        if end >= s.len() {
            seq![s.skip(pos)]
        } else {
            seq![without_return(s.subrange(pos, end))] + lines_from(s, end + 1)
        }
    }
}

/// The words of `s` from `pos` on: the stretches of characters that hold no
/// white space, each as long as it can be.
pub open spec fn words_from(s: Seq<char>, pos: int) -> Seq<Seq<char>>
    decreases s.len() - pos,
{
    let start = pos + run_len(s, pos, CharClass::Whitespace);
    if pos < 0 || start >= s.len() {
        Seq::empty()
    } else {
        let end = start + 1 + run_len(s, start + 1, CharClass::Visible);
        proof {
            lemma_run_len(s, start + 1, CharClass::Visible);
        }
        seq![s.subrange(start, end)] + words_from(s, end)
    }
}

/// The texts that the slices of `parts` hold.
pub open spec fn texts(parts: Seq<&[char]>) -> Seq<Seq<char>> {
    Seq::new(parts.len(), |i: int| parts[i]@)
}

/// The text that holds the given lines one behind the other, each with a
/// carriage return and a line feed behind it.
pub open spec fn written_lines(lines: Seq<Seq<char>>) -> Seq<char>
    decreases lines.len(),
{
    if lines.len() == 0 {
        Seq::empty()
    } else {
        lines[0] + seq!['\r', '\n'] + written_lines(lines.drop_first())
    }
}

/// Lines that are written at the end of a text are the lines of the text
/// from the place where they are written.
pub proof fn lemma_lines_from_written(s: Seq<char>, pos: int, lines: Seq<Seq<char>>)
    requires
        forall|i: int| 0 <= i < lines.len() ==> !(#[trigger] lines[i]).contains('\n'),
        word_at(s, pos, written_lines(lines)),
        pos + written_lines(lines).len() == s.len(),
    ensures
        lines_from(s, pos) == lines,
    decreases lines.len(),
{
    if lines.len() == 0 {
        assert(lines =~= Seq::<Seq<char>>::empty());
    } else {
        let line = lines[0];
        let later = lines.drop_first();
        let ended = line + seq!['\r', '\n'];
        let n = line.len() as int;
        lemma_word_at_parts(s, pos, ended, written_lines(later));
        lemma_word_at(s, pos, ended);
        assert(ended[n] == '\r' && ended[n + 1] == '\n');
        assert(s[pos + (n + 1)] == '\n');
        assert forall|i: int| pos <= i < pos + n + 1 implies CharClass::Except('\n').holds(
            #[trigger] s[i],
        ) by {
            assert(s[pos + (i - pos)] == ended[i - pos]);
            if i - pos < n {
                assert(ended[i - pos] == line[i - pos]);
                assert(line.contains(line[i - pos]));
            }
        }
        lemma_run_len_unique(s, pos, CharClass::Except('\n'), (n + 1) as nat);
        let cut = s.subrange(pos, pos + n + 1);
        assert(cut =~= line.push('\r')) by {
            assert forall|i: int| 0 <= i < n + 1 implies cut[i] == line.push('\r')[i] by {
                assert(s[pos + i] == ended[i]);
            }
        }
        assert(without_return(cut) =~= line);
        assert forall|i: int| 0 <= i < later.len() implies !(#[trigger] later[i]).contains(
            '\n',
        ) by {
            assert(later[i] == lines[i + 1]);
        }
        lemma_lines_from_written(s, pos + n + 2, later);
        assert(seq![line] + later =~= lines);
    }
}

/// Lines that hold no line feed, written one behind the other with a
/// carriage return and a line feed behind each, are the lines of the text.
pub proof fn lemma_written_lines(lines: Seq<Seq<char>>)
    requires
        forall|i: int| 0 <= i < lines.len() ==> !(#[trigger] lines[i]).contains('\n'),
    ensures
        lines_from(written_lines(lines), 0) == lines,
{
    let s = written_lines(lines);
    assert(s.subrange(0, s.len() as int) =~= s);
    lemma_lines_from_written(s, 0, lines);
}

/// The trailing run is the only stretch at the end of the text that holds
/// characters of the class alone and cannot be extended.
pub proof fn lemma_trailing_run_unique(s: Seq<char>, class: CharClass, n: nat)
    requires
        n <= s.len(),
        forall|i: int| s.len() - n <= i < s.len() ==> class.holds(#[trigger] s[i]),
        n < s.len() ==> !class.holds(s[s.len() - n - 1]),
    ensures
        trailing_run(s, class) == n,
    decreases n,
{
    if n > 0 {
        lemma_trailing_run_unique(s.drop_last(), class, (n - 1) as nat);
    }
}

/// Cuts the white space off both ends of `chars`.
pub fn trim(chars: &[char]) -> (r: &[char])
    ensures
        r@ == trimmed(chars@),
{
    let start = scan(chars, 0, CharClass::Whitespace);
    let rest = &chars[start..chars.len()];
    let mut end: usize = rest.len();
    while end > 0 && CharClass::Whitespace.contains(rest[end - 1])
        invariant
            end <= rest@.len(),
            forall|i: int| end <= i < rest@.len() ==> CharClass::Whitespace.holds(#[trigger] rest@[i]),
        decreases end,
    {
        end -= 1;
    }
    proof {
        lemma_trailing_run_unique(rest@, CharClass::Whitespace, (rest@.len() - end) as nat);
    }
    &rest[0..end]
}

/// Cuts the line that starts at `pos` out of `buf` and returns it with the
/// position where the next line starts.
pub fn next_line(buf: &[char], pos: usize) -> (r: (&[char], usize))
    requires
        pos < buf@.len(),
    ensures
        pos < r.1 <= buf@.len(),
        r.1 == buf@.len() || r.1 == pos + run_len(buf@, pos as int, CharClass::Except('\n')) + 1,
        lines_from(buf@, pos as int) == seq![r.0@] + lines_from(buf@, r.1 as int),
{
    let end = scan(buf, pos, CharClass::Except('\n'));
    if end >= buf.len() {
        assert(lines_from(buf@, end as int) =~= Seq::<Seq<char>>::empty());
        assert(seq![buf@.skip(pos as int)] + Seq::<Seq<char>>::empty() =~= seq![
            buf@.skip(pos as int),
        ]);
        (&buf[pos..end], end)
    } else if end > pos && buf[end - 1] == '\r' {
        assert(buf@.subrange(pos as int, end as int).drop_last() =~= buf@.subrange(
            pos as int,
            end - 1,
        ));
        (&buf[pos..end - 1], end + 1)
    } else {
        (&buf[pos..end], end + 1)
    }
}

/// Cuts `chars` into its words.
pub fn split_words(chars: &[char]) -> (r: Vec<&[char]>)
    ensures
        texts(r@) == words_from(chars@, 0),
{
    let mut words: Vec<&[char]> = Vec::new();
    let mut pos: usize = 0;
    assert(texts(words@) =~= Seq::<Seq<char>>::empty());
    loop
        invariant
            pos <= chars@.len(),
            words_from(chars@, 0) == texts(words@) + words_from(chars@, pos as int),
        decreases chars@.len() - pos,
    {
        let start = scan(chars, pos, CharClass::Whitespace);
        if start >= chars.len() {
            assert(texts(words@) + Seq::<Seq<char>>::empty() =~= texts(words@));
            return words;
        }
        proof {
            lemma_run_len(chars@, pos as int, CharClass::Whitespace);
        }
        let end = scan(chars, start + 1, CharClass::Visible);
        let word = &chars[start..end];
        let ghost before = words@;
        words.push(word);
        proof {
            assert(texts(words@) =~= texts(before).push(word@));
            assert(texts(before) + (seq![word@] + words_from(chars@, end as int)) =~= texts(words@)
                + words_from(chars@, end as int));
        }
        pos = end;
    }
}

} // verus!
