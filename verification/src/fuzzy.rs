//! Approximate matching of a query against names, by the `fuse-rust` scorer in
//! its default configuration, and the rule that picks among the matches: one
//! match is the answer, several are none.

use fuse_rust::Fuse;
use vstd::prelude::*;
use vstd::string::*;
use vstd::utf8::*;

use crate::golink::{view_of, views, GoLink, LinkView};

verus! {

/// The longest query, in bytes, that the scorer's 64-bit pattern mask can hold.
pub const MAX_QUERY_LEN: usize = 64;

/// The longest candidate, in bytes, whose positions the scorer can still count
/// in a signed 32-bit integer with a whole query to spare.
pub const MAX_CANDIDATE_LEN: usize = 0x7fff_ffbf;

/// Whether the scorer can be asked about this pair at all: the query is ASCII
/// and fits the pattern mask, the candidate is not empty and not too long.
pub open spec fn scorable(query: Seq<char>, candidate: Seq<char>) -> bool {
    &&& is_ascii_chars(query)
    &&& query.len() <= MAX_QUERY_LEN
    &&& 0 < encode_utf8(candidate).len() <= MAX_CANDIDATE_LEN
}

/// Whether `Fuse::default().search_text_in_string(query, candidate)` returns
/// `Some`: whether the scorer reports a match of `query` in `candidate`.
pub uninterp spec fn fuse_accepts(query: Seq<char>, candidate: Seq<char>) -> bool;

/// The matching rule of this library: a pair matches when the scorer can take
/// it and accepts it. A pair outside the scorer's limits never matches.
pub open spec fn fuzzy_match(query: Seq<char>, candidate: Seq<char>) -> bool {
    scorable(query, candidate) && fuse_accepts(query, candidate)
}

/// Calls `fuse_rust::Fuse::search_text_in_string` on a scorer built by
/// `Fuse::default()` and reports whether it returned `Some`.
///
/// Trusted: the search reads only its two arguments and the fixed default
/// settings, so the same pair always gets the same answer; `fuse_accepts` names
/// it. The `requires` keeps out the inputs on which the crate's code can panic:
/// a pattern of more than 64 bytes overflows the shifts that build its mask, a
/// non-ASCII pattern may change length when lowercased, an empty candidate
/// leaves no match mask to report ranges from, and offsets beyond `i32::MAX`
/// overflow its distance arithmetic.
#[verifier::external_body]
fn fuse_search(query: &str, candidate: &str) -> (hit: bool)
    requires
        scorable(query@, candidate@),
    ensures
        hit == fuse_accepts(query@, candidate@),
{
    Fuse::default().search_text_in_string(query, candidate).is_some()
}

/// Decides `fuzzy_match` for a query and one candidate.
pub fn is_fuzzy_match(query: &str, candidate: &str) -> (hit: bool)
    ensures
        hit == fuzzy_match(query@, candidate@),
{
    if !query.is_ascii() {
        return false;
    }
    proof {
        is_ascii_spec_bytes(query);
    }
    let query_len = query.as_bytes().len();
    let candidate_len = candidate.as_bytes().len();
    if query_len > MAX_QUERY_LEN || candidate_len == 0 || candidate_len > MAX_CANDIDATE_LEN {
        return false;
    }
    fuse_search(query, candidate)
}

/// Whether `name` is a name in `links` that matches `query` approximately.
pub open spec fn is_candidate(
    links: Map<Seq<char>, LinkView>,
    query: Seq<char>,
    name: Seq<char>,
) -> bool {
    links.contains_key(name) && fuzzy_match(query, name)
}

/// Whether `name` is the one and only candidate for `query` in `links`.
pub open spec fn is_sole_candidate(
    links: Map<Seq<char>, LinkView>,
    query: Seq<char>,
    name: Seq<char>,
) -> bool {
    &&& is_candidate(links, query, name)
    &&& forall|other: Seq<char>| is_candidate(links, query, other) ==> other == name
}

/// The record of the only candidate for `query` in `links`; nothing where
/// there is no candidate or more than one.
pub open spec fn sole_match(links: Map<Seq<char>, LinkView>, query: Seq<char>) -> Option<
    LinkView,
> {
    if exists|name: Seq<char>| is_sole_candidate(links, query, name) {
        Some(links[choose|name: Seq<char>| is_sole_candidate(links, query, name)])
    } else {
        None
    }
}

/// Where one name alone matches the query, its record is the answer.
pub proof fn lemma_one_candidate_is_the_answer(
    links: Map<Seq<char>, LinkView>,
    query: Seq<char>,
    name: Seq<char>,
)
    requires
        is_candidate(links, query, name),
        forall|other: Seq<char>| is_candidate(links, query, other) ==> other == name,
    ensures
        sole_match(links, query) == Some(links[name]),
{
    assert(is_sole_candidate(links, query, name));
}

/// Where two names match the query there is no answer, however well either
/// of them matches.
pub proof fn lemma_two_candidates_are_no_answer(
    links: Map<Seq<char>, LinkView>,
    query: Seq<char>,
    one: Seq<char>,
    other: Seq<char>,
)
    requires
        is_candidate(links, query, one),
        is_candidate(links, query, other),
        one != other,
    ensures
        sole_match(links, query) is None,
{
    assert forall|name: Seq<char>| !is_sole_candidate(links, query, name) by {
        assert(is_candidate(links, query, one) && is_candidate(links, query, other));
    }
}

/// Where no name matches the query there is no answer.
pub proof fn lemma_no_candidate_is_no_answer(links: Map<Seq<char>, LinkView>, query: Seq<char>)
    requires
        forall|name: Seq<char>| !is_candidate(links, query, name),
    ensures
        sole_match(links, query) is None,
{
}

/// Whether `hits` holds the position `i`.
pub open spec fn is_hit(hits: Seq<usize>, i: int) -> bool {
    exists|k: int| 0 <= k < hits.len() && #[trigger] hits[k] == i
}

/// Whether `hits` lists, in rising order, exactly the positions of the records
/// whose names match `query` approximately.
pub open spec fn are_hits(query: Seq<char>, items: Seq<LinkView>, hits: Seq<usize>) -> bool {
    &&& forall|k: int| 0 <= k < hits.len() ==> (#[trigger] hits[k]) < items.len()
    &&& forall|a: int, b: int| 0 <= a < b < hits.len() ==> hits[a] < hits[b]
    &&& forall|i: int|
        0 <= i < items.len() ==> (is_hit(hits, i) <==> fuzzy_match(
            query,
            (#[trigger] items[i]).name,
        ))
}

/// The positions in `items` of the records whose names match `query`
/// approximately, in rising order.
pub fn fuzzy_hits(query: &str, items: &Vec<GoLink>) -> (hits: Vec<usize>)
    ensures
        are_hits(query@, views(items@), hits@),
{
    let mut hits: Vec<usize> = Vec::new();
    let mut i: usize = 0;
    while i < items.len()
        invariant
            0 <= i <= items@.len(),
            forall|k: int| 0 <= k < hits@.len() ==> (#[trigger] hits@[k]) < i,
            forall|a: int, b: int| 0 <= a < b < hits@.len() ==> hits@[a] < hits@[b],
            forall|j: int|
                0 <= j < i ==> (is_hit(hits@, j) <==> fuzzy_match(
                    query@,
                    (#[trigger] items@[j])@.name,
                )),
        decreases items@.len() - i,
    {
        let ghost before = hits@;
        if is_fuzzy_match(query, items[i].name().as_str()) {
            hits.push(i);
            proof {
                // The new hit is `i`, and the hits below `i` are those that were.
                assert(hits@[before.len() as int] == i);
                assert forall|j: int| 0 <= j < i && is_hit(before, j) implies is_hit(hits@, j) by {
                    let k = choose|k: int| 0 <= k < before.len() && #[trigger] before[k] == j;
                    assert(hits@[k] == j);
                }
            }
        }
        i += 1;
    }
    hits
}

/// The disambiguation rule: the record at the one position that `hits` holds;
/// nothing where `hits` is empty, holds several positions, or points outside
/// `items`.
pub fn pick_unique(items: &Vec<GoLink>, hits: &Vec<usize>) -> (picked: Option<GoLink>)
    ensures
        view_of(picked) == (if hits@.len() == 1 && hits@[0] < items@.len() {
            Some(items@[hits@[0] as int]@)
        } else {
            None
        }),
{
    if hits.len() == 1 && hits[0] < items.len() {
        Some(items[hits[0]].clone())
    } else {
        None
    }
}

} // verus!
