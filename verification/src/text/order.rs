//! The dictionary order on texts, character by character.

use vstd::prelude::*;
use vstd::std_specs::iter::IteratorSpec;

verus! {

/// Whether `a` stands before `b` in dictionary order, given that the two
/// agree on their first `pos` characters.
pub open spec fn precedes_from(a: Seq<char>, b: Seq<char>, pos: int) -> bool
    decreases a.len() - pos,
{
    if pos < 0 || pos >= b.len() {
        false
    } else if pos >= a.len() {
        true
    } else if a[pos] != b[pos] {
        a[pos] < b[pos]
    } else {
        precedes_from(a, b, pos + 1)
    }
}

/// Whether `a` stands before `b` in dictionary order: at the first place
/// where they differ `a` has the smaller character, or `a` is a proper
/// prefix of `b`.
pub open spec fn precedes(a: Seq<char>, b: Seq<char>) -> bool {
    precedes_from(a, b, 0)
}

/// How two texts stand to each other in dictionary order.
#[derive(Clone, Copy, Debug, PartialEq, Eq)]
pub enum Rank {
    /// The first text stands before the second.
    Before,
    /// The texts are equal.
    Same,
    /// The first text stands after the second.
    After,
}

proof fn lemma_precedes_from_transitive(a: Seq<char>, b: Seq<char>, c: Seq<char>, pos: int)
    requires
        precedes_from(a, b, pos),
        precedes_from(b, c, pos),
    ensures
        precedes_from(a, c, pos),
    decreases a.len() - pos,
{
    if pos < a.len() && a[pos] == b[pos] && b[pos] == c[pos] {
        lemma_precedes_from_transitive(a, b, c, pos + 1);
    }
}

proof fn lemma_precedes_from_asymmetric(a: Seq<char>, b: Seq<char>, pos: int)
    requires
        precedes_from(a, b, pos),
    ensures
        !precedes_from(b, a, pos),
    decreases a.len() - pos,
{
    if pos < a.len() && a[pos] == b[pos] {
        lemma_precedes_from_asymmetric(a, b, pos + 1);
    }
}

proof fn lemma_precedes_from_total(a: Seq<char>, b: Seq<char>, pos: int)
    requires
        0 <= pos <= a.len(),
        pos <= b.len(),
        a.take(pos) == b.take(pos),
        a != b,
    ensures
        precedes_from(a, b, pos) || precedes_from(b, a, pos),
    decreases a.len() - pos,
{
    if pos < a.len() && pos < b.len() {
        if a[pos] == b[pos] {
            assert(a.take(pos + 1) =~= a.take(pos).push(a[pos]));
            assert(b.take(pos + 1) =~= b.take(pos).push(b[pos]));
            lemma_precedes_from_total(a, b, pos + 1);
        }
    } else if pos == a.len() && pos == b.len() {
        assert(a =~= a.take(pos));
        assert(b =~= b.take(pos));
    }
}

/// The dictionary order is transitive.
pub proof fn lemma_precedes_transitive(a: Seq<char>, b: Seq<char>, c: Seq<char>)
    requires
        precedes(a, b),
        precedes(b, c),
    ensures
        precedes(a, c),
{
    lemma_precedes_from_transitive(a, b, c, 0);
}

/// No text stands before itself, and of two texts at most one stands before
/// the other.
pub proof fn lemma_precedes_asymmetric(a: Seq<char>, b: Seq<char>)
    requires
        precedes(a, b),
    ensures
        !precedes(b, a),
        a != b,
{
    lemma_precedes_from_asymmetric(a, b, 0);
}

/// Of two different texts one stands before the other.
pub proof fn lemma_precedes_total(a: Seq<char>, b: Seq<char>)
    requires
        a != b,
    ensures
        precedes(a, b) || precedes(b, a),
{
    assert(a.take(0) =~= b.take(0));
    lemma_precedes_from_total(a, b, 0);
}

/// Finds how `a` stands to `b` in dictionary order.
pub fn rank(a: &str, b: &str) -> (r: Rank)
    ensures
        r == Rank::Before <==> precedes(a@, b@),
        r == Rank::Same <==> a@ == b@,
        r == Rank::After <==> precedes(b@, a@),
{
    let mut left = a.chars();
    let mut right = b.chars();
    let ghost mut pos: int = 0;
    loop
        invariant
            0 <= pos <= a@.len(),
            pos <= b@.len(),
            left.remaining() == a@.skip(pos),
            right.remaining() == b@.skip(pos),
            a@.take(pos) =~= b@.take(pos),
            precedes(a@, b@) == precedes_from(a@, b@, pos),
            precedes(b@, a@) == precedes_from(b@, a@, pos),
        decreases a@.len() - pos,
    {
        let x = left.next();
        let y = right.next();
        match (x, y) {
            (None, None) => {
                proof {
                    assert(a@ =~= a@.take(pos));
                    assert(b@ =~= b@.take(pos));
                }
                return Rank::Same;
            },
            (None, Some(_)) => {
                proof {
                    assert(a@.len() != b@.len());
                }
                return Rank::Before;
            },
            (Some(_), None) => {
                proof {
                    assert(a@.len() != b@.len());
                }
                return Rank::After;
            },
            (Some(c), Some(d)) => {
                if c < d {
                    proof {
                        assert(a@[pos] != b@[pos]);
                    }
                    return Rank::Before;
                } else if d < c {
                    proof {
                        assert(a@[pos] != b@[pos]);
                    }
                    return Rank::After;
                }
                proof {
                    assert(a@.skip(pos).drop_first() =~= a@.skip(pos + 1));
                    assert(b@.skip(pos).drop_first() =~= b@.skip(pos + 1));
                    assert(a@.take(pos + 1) =~= a@.take(pos).push(a@[pos]));
                    assert(b@.take(pos + 1) =~= b@.take(pos).push(b@[pos]));
                    pos = pos + 1;
                }
            },
        }
    }
}

} // verus!
