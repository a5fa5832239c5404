//! The tiered lookup of a name (the cache first, then the durable store, then
//! a fuzzy search of the cache) and the removal of a name from both.
//!
//! The store lies outside this library. A caller that can ask it on the spot
//! hands `get_golink_by_id` the means to do so. A caller that has to wait for
//! the store takes the lookup in two steps: `begin_resolve` answers from the
//! cache or says that the store has to be asked, and `finish_resolve` takes
//! what the store said.
//!
//! Cache and store are never changed in one step. After a write to the store
//! the cache may go on holding what it held, until that name is removed or the
//! cache is filled anew.

use vstd::prelude::*;

use crate::cache::{filed_by_name, Cache};
use crate::db::created;
use crate::fuzzy::{fuzzy_match, sole_match};
use crate::golink::{view_of, GoLink, Id, LinkView};

verus! {

/// How the first step of a lookup ended.
#[derive(Debug)]
pub enum Step {
    /// The cache held the record.
    Answer(GoLink),
    /// The cache did not hold the name: the store has to be asked.
    AskStore,
}

/// What the later steps of a lookup of `id` do with the cache and answer, given
/// what the store said: a record of that name from the store is filed in the
/// cache and returned; without one (no such row, a failed query, a record of
/// another name) the cache stays and its only fuzzy match, if any, is returned.
pub open spec fn settled(
    cache: Map<Seq<char>, LinkView>,
    stored: Option<LinkView>,
    id: Seq<char>,
) -> (Map<Seq<char>, LinkView>, Option<LinkView>) {
    match stored {
        Some(link) if link.name == id => (cache.insert(id, link), Some(link)),
        _ => (cache, sole_match(cache, id)),
    }
}

/// What a whole lookup of `id` does with the cache and answers: a name that
/// the cache holds is answered from it, and any other as `settled` says.
pub open spec fn resolved(
    cache: Map<Seq<char>, LinkView>,
    stored: Option<LinkView>,
    id: Seq<char>,
) -> (Map<Seq<char>, LinkView>, Option<LinkView>) {
    if cache.contains_key(id) {
        (cache, Some(cache[id]))
    } else {
        settled(cache, stored, id)
    }
}

/// The first step of a lookup: the record that the cache holds under `id`, or
/// the request to ask the store.
pub fn begin_resolve(id: &Id, cache: &Cache) -> (step: Step)
    ensures
        match step {
            Step::Answer(link) => cache@.contains_key(id@) && link@ == cache@[id@],
            Step::AskStore => !cache@.contains_key(id@),
        },
{
    match cache.get_link(id) {
        Some(link) => Step::Answer(link),
        None => Step::AskStore,
    }
}

/// The later steps of a lookup, after the store was asked for `id`: `stored`
/// is the record that it had, or nothing if it had none or could not say.
pub fn finish_resolve(id: &Id, cache: &mut Cache, stored: Option<GoLink>) -> (found: Option<GoLink>)
    ensures
        (final(cache)@, view_of(found)) == settled(old(cache)@, view_of(stored), id@),
{
    match stored {
        Some(link) => {
            if *link.name() == *id {
                let _ = cache.put_link(link.clone());
                Some(link)
            } else {
                cache.get_fuzzy(id)
            }
        },
        None => cache.get_fuzzy(id),
    }
}

/// The whole lookup for a caller that can ask the store on the spot:
/// `ask_store` is called on `id`, and only if the cache does not hold it.
pub fn get_golink_by_id<F: FnOnce(&Id) -> Option<GoLink>>(
    id: &Id,
    cache: &mut Cache,
    ask_store: F,
) -> (found: Option<GoLink>)
    requires
        call_requires(ask_store, (id,)),
    ensures
        old(cache)@.contains_key(id@) ==> final(cache)@ == old(cache)@ && view_of(found) == Some(
            old(cache)@[id@],
        ),
        !old(cache)@.contains_key(id@) ==> exists|stored: Option<GoLink>|
            call_ensures(ask_store, (id,), stored) && (final(cache)@, view_of(found)) == settled(
                old(cache)@,
                view_of(stored),
                id@,
            ),
{
    match begin_resolve(id, cache) {
        Step::Answer(link) => Some(link),
        Step::AskStore => {
            let stored = ask_store(id);
            let ghost answer = stored;
            let found = finish_resolve(id, cache, stored);
            assert(call_ensures(ask_store, (id,), answer) && (cache@, view_of(found)) == settled(
                old(cache)@,
                view_of(answer),
                id@,
            ));
            found
        },
    }
}

/// Removes `id` from the cache once the store was told to delete it: `erased`
/// is what the store said. The cache lets go of the name whatever the store
/// said, and whether or not it held the name; what the store said is the
/// outcome of the whole.
pub fn remove(id: &Id, cache: &mut Cache, erased: Result<(), &'static str>) -> (done: Result<
    (),
    &'static str,
>)
    ensures
        final(cache)@ == old(cache)@.remove(id@),
        done == erased,
{
    let _ = cache.delete_link(id);
    erased
}

/// A name that only the store holds is answered from the store, and the cache
/// then answers it too.
pub proof fn lemma_store_hit_fills_cache(
    cache: Map<Seq<char>, LinkView>,
    store: Map<Seq<char>, LinkView>,
    id: Seq<char>,
)
    requires
        filed_by_name(store),
        !cache.contains_key(id),
        store.contains_key(id),
    ensures
        resolved(cache, store.index_opt(id), id).1 == Some(store[id]),
        resolved(cache, store.index_opt(id), id).0.index_opt(id) == Some(store[id]),
        resolved(cache, store.index_opt(id), id).0 == cache.insert(id, store[id]),
{
}

/// A name that neither the cache nor the store holds, and that no name in the
/// cache matches approximately, is answered with nothing, and the cache stays
/// as it was.
pub proof fn lemma_unknown_name_finds_nothing(
    cache: Map<Seq<char>, LinkView>,
    store: Map<Seq<char>, LinkView>,
    id: Seq<char>,
)
    requires
        !cache.contains_key(id),
        !store.contains_key(id),
        forall|name: Seq<char>| cache.contains_key(name) ==> !fuzzy_match(id, name),
    ensures
        resolved(cache, store.index_opt(id), id) == (cache, None::<LinkView>),
{
}

/// A record that the store has just taken is what a lookup of its name
/// answers, as long as the cache does not hold another record under that name.
pub proof fn lemma_create_then_resolve(
    cache: Map<Seq<char>, LinkView>,
    store: Map<Seq<char>, LinkView>,
    record: LinkView,
)
    requires
        created(store, record) is Some,
        cache.contains_key(record.name) ==> cache[record.name] == record,
    ensures
        resolved(cache, created(store, record).unwrap().index_opt(record.name), record.name).1
            == Some(record),
{
}

} // verus!
