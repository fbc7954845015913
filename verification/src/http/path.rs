//! The target of a request: its path, its query and its fragment.

use crate::string_map::{pairs_map, StringMap};
use crate::text::convert::{to_chars, to_text};
use crate::text::scan::{run_len, scan, CharClass};
use vstd::prelude::*;

verus! {

/// The target of a request, taken apart.
#[derive(Debug, PartialEq, Eq)]
pub struct HttpPath {
    /// The target as it was written.
    pub full_path: String,
    /// The target without its fragment and its query.
    pub path: String,
    /// The parameters of the query, if the target has a `?`.
    pub query: Option<StringMap<String>>,
    /// What follows the first `#`, if the target has one.
    pub fragment: Option<String>,
}

/// An `HttpPath` as a mathematical value.
pub ghost struct PathView {
    pub full_path: Seq<char>,
    pub path: Seq<char>,
    pub query: Option<Map<Seq<char>, Seq<char>>>,
    pub fragment: Option<Seq<char>>,
}

/// The parameter that one piece of a query writes: the name before the first
/// `=` and the value behind it, or the whole piece as a name with an empty
/// value.
pub open spec fn parameter_of(piece: Seq<char>) -> (Seq<char>, Seq<char>) {
    let n = run_len(piece, 0, CharClass::Except('=')) as int;
    if n < piece.len() {
        (piece.take(n), piece.skip(n + 1))
    } else {
        (piece, Seq::empty())
    }
}

/// The parameters that a query writes from `pos` on, one for each piece
/// between two `&`, in the order of the text. An empty piece counts.
pub open spec fn parameters_from(query: Seq<char>, pos: int) -> Seq<(Seq<char>, Seq<char>)>
    decreases query.len() - pos,
{
    if pos < 0 || pos > query.len() {
        Seq::empty()
    } else {
        let end = pos + run_len(query, pos, CharClass::Except('&'));
        if end >= query.len() {
            seq![parameter_of(query.skip(pos))]
        } else {
            seq![parameter_of(query.subrange(pos, end))] + parameters_from(query, end + 1)
        }
    }
}

/// What a request target says. The fragment is what follows the first `#`.
/// In what stands before it, the query is what follows the first `?`, and the
/// path what stands before that. Of two parameters with one name the later
/// one stays.
pub open spec fn path_of(target: Seq<char>) -> PathView {
    let hash = run_len(target, 0, CharClass::Except('#')) as int;
    let front = target.take(hash);
    let mark = run_len(front, 0, CharClass::Except('?')) as int;
    PathView {
        full_path: target,
        path: front.take(mark),
        query: if mark < front.len() {
            Some(pairs_map(parameters_from(front.skip(mark + 1), 0)))
        } else {
            None
        },
        fragment: if hash < target.len() {
            Some(target.skip(hash + 1))
        } else {
            None
        },
    }
}

/// The parameters of a query as a map from each name to the value's text.
pub open spec fn query_view(query: StringMap<String>) -> Map<Seq<char>, Seq<char>> {
    Map::new(|k: Seq<char>| query@.contains_key(k), |k: Seq<char>| query@[k]@)
}

impl HttpPath {
    /// The path as a mathematical value.
    pub open spec fn view(&self) -> PathView {
        PathView {
            full_path: self.full_path@,
            path: self.path@,
            query: match self.query {
                Some(q) => Some(query_view(q)),
                None => None,
            },
            fragment: match self.fragment {
                Some(f) => Some(f@),
                None => None,
            },
        }
    }

    /// Reads the parameters of a query.
    fn read_query(query: &[char]) -> (r: StringMap<String>)
        ensures
            query_view(r) == pairs_map(parameters_from(query@, 0)),
    {
        let mut map: StringMap<String> = StringMap::new();
        let mut pos: usize = 0;
        let ghost mut done: Seq<(Seq<char>, Seq<char>)> = Seq::empty();
        assert(query_view(map) =~= pairs_map(done));
        loop
            invariant
                pos <= query@.len(),
                query_view(map) == pairs_map(done),
                parameters_from(query@, 0) == done + parameters_from(query@, pos as int),
            decreases query@.len() - pos,
        {
            let end = scan(query, pos, CharClass::Except('&'));
            let piece = &query[pos..end];
            let split = scan(piece, 0, CharClass::Except('='));
            let name = to_text(&piece[0..split]);
            let value = if split < piece.len() {
                to_text(&piece[split + 1..piece.len()])
            } else {
                String::new()
            };
            let ghost pair = parameter_of(piece@);
            let ghost before = map;
            proof {
                assert(name@ == pair.0);
                assert(value@ == pair.1);
                assert(done.push(pair).drop_last() =~= done);
            }
            map.insert(name, value);
            proof {
                assert(query_view(map) =~= query_view(before).insert(pair.0, pair.1));
                if end >= query@.len() {
                    assert(done + seq![pair] =~= done.push(pair));
                } else {
                    assert(done + (seq![pair] + parameters_from(query@, end + 1)) =~= done.push(
                        pair,
                    ) + parameters_from(query@, end + 1));
                }
                done = done.push(pair);
            }
            if end >= query.len() {
                return map;
            }
            pos = end + 1;
        }
    }

    /// Takes the target `chars` apart.
    pub fn from_chars(chars: &[char]) -> (r: HttpPath)
        ensures
            r@ == path_of(chars@),
    {
        let hash = scan(chars, 0, CharClass::Except('#'));
        let front = &chars[0..hash];
        let mark = scan(front, 0, CharClass::Except('?'));
        let query = if mark < front.len() {
            Some(HttpPath::read_query(&front[mark + 1..front.len()]))
        } else {
            None
        };
        let fragment = if hash < chars.len() {
            Some(to_text(&chars[hash + 1..chars.len()]))
        } else {
            None
        };
        HttpPath { full_path: to_text(chars), path: to_text(&front[0..mark]), query, fragment }
    }

    /// Takes the target `path` apart.
    pub fn from_str(path: &str) -> (r: HttpPath)
        ensures
            r@ == path_of(path@),
    {
        let chars = to_chars(path);
        HttpPath::from_chars(chars.as_slice())
    }
}

} // verus!
