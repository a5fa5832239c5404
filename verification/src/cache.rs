//! The in-memory index from names to link records.
//!
//! The records lie in a vector, and a hash map tells of each name where its
//! record stands: a lookup by name costs one hash, a listing one pass.

use vstd::hash_map::StringHashMap;
use vstd::prelude::*;

use crate::fuzzy::{
    are_hits, fuzzy_hits, is_candidate, is_hit, is_sole_candidate, pick_unique, sole_match,
};
use crate::golink::{view_of, views, GoLink, Id, LinkView};

verus! {

/// What a run of puts leaves of the map `start`: each record is filed under
/// its name, in turn, and takes the place of an earlier record of that name.
pub open spec fn after_puts(start: Map<Seq<char>, LinkView>, puts: Seq<LinkView>) -> Map<
    Seq<char>,
    LinkView,
>
    decreases puts.len(),
{
    if puts.len() == 0 {
        start
    } else {
        after_puts(start, puts.drop_last()).insert(puts.last().name, puts.last())
    }
}

/// Whether every record of the map is filed under its own name.
pub open spec fn filed_by_name(links: Map<Seq<char>, LinkView>) -> bool {
    forall|name: Seq<char>| links.contains_key(name) ==> (#[trigger] links[name]).name == name
}

spec fn holds_at(records: Seq<GoLink>, name: Seq<char>, i: int) -> bool {
    0 <= i < records.len() && records[i]@.name == name
}

spec fn names_distinct(records: Seq<GoLink>) -> bool {
    forall|i: int, j: int|
        0 <= i < j < records.len() ==> (#[trigger] records[i])@.name != (#[trigger] records[j])@.name
}

spec fn as_map(records: Seq<GoLink>) -> Map<Seq<char>, LinkView> {
    Map::new(
        |name: Seq<char>| exists|i: int| holds_at(records, name, i),
        |name: Seq<char>| records[choose|i: int| holds_at(records, name, i)]@,
    )
}

/// Whether `index` tells of every record where it stands, and of nothing else.
spec fn indexed(records: Seq<GoLink>, index: Map<Seq<char>, usize>) -> bool {
    &&& forall|i: int|
        0 <= i < records.len() ==> index.contains_key((#[trigger] records[i])@.name)
            && index[records[i]@.name] == i
    &&& forall|name: Seq<char>| #[trigger]
        index.contains_key(name) ==> holds_at(records, name, index[name] as int)
}

proof fn lemma_indexed_distinct(records: Seq<GoLink>, index: Map<Seq<char>, usize>)
    requires
        indexed(records, index),
    ensures
        names_distinct(records),
{
}

proof fn lemma_as_map_at(records: Seq<GoLink>, i: int)
    requires
        names_distinct(records),
        0 <= i < records.len(),
    ensures
        as_map(records).contains_key(records[i]@.name),
        as_map(records)[records[i]@.name] == records[i]@,
{
    assert(holds_at(records, records[i]@.name, i));
}

/// A map is the one that the records stand for if it holds each of them under
/// its name and nothing else.
proof fn lemma_as_map_is(records: Seq<GoLink>, links: Map<Seq<char>, LinkView>)
    requires
        names_distinct(records),
        forall|i: int|
            0 <= i < records.len() ==> links.contains_key((#[trigger] records[i])@.name)
                && links[records[i]@.name] == records[i]@,
        forall|name: Seq<char>| #[trigger]
            links.contains_key(name) ==> exists|i: int| holds_at(records, name, i),
    ensures
        as_map(records) == links,
{
    assert forall|name: Seq<char>| #[trigger] as_map(records).contains_key(name) implies links.contains_key(
        name,
    ) && as_map(records)[name] == links[name] by {
        let i = choose|i: int| holds_at(records, name, i);
        lemma_as_map_at(records, i);
    }
}

/// Putting a record in the place of the one that bears its name.
proof fn lemma_overwrite(before: Seq<GoLink>, index: Map<Seq<char>, usize>, i: int, link: GoLink)
    requires
        indexed(before, index),
        holds_at(before, link@.name, i),
    ensures
        indexed(before.update(i, link), index),
        as_map(before.update(i, link)) == as_map(before).insert(link@.name, link@),
{
    let after = before.update(i, link);
    let target = as_map(before).insert(link@.name, link@);
    lemma_indexed_distinct(before, index);
    assert(indexed(after, index));
    assert forall|j: int| 0 <= j < after.len() implies target.contains_key(
        (#[trigger] after[j])@.name,
    ) && target[after[j]@.name] == after[j]@ by {
        if j != i {
            lemma_as_map_at(before, j);
        }
    }
    assert forall|name: Seq<char>| #[trigger] target.contains_key(name) implies exists|j: int|
        holds_at(after, name, j) by {
        let j = if name == link@.name {
            i
        } else {
            choose|j: int| holds_at(before, name, j)
        };
        assert(holds_at(after, name, j));
    }
    lemma_as_map_is(after, target);
}

/// Adding a record whose name none of the others bears.
proof fn lemma_append(before: Seq<GoLink>, index: Map<Seq<char>, usize>, link: GoLink)
    requires
        indexed(before, index),
        forall|i: int| !holds_at(before, link@.name, i),
        before.len() <= usize::MAX,
    ensures
        indexed(before.push(link), index.insert(link@.name, before.len() as usize)),
        as_map(before.push(link)) == as_map(before).insert(link@.name, link@),
{
    let after = before.push(link);
    let target = as_map(before).insert(link@.name, link@);
    lemma_indexed_distinct(before, index);
    assert(indexed(after, index.insert(link@.name, before.len() as usize)));
    assert forall|j: int| 0 <= j < after.len() implies target.contains_key(
        (#[trigger] after[j])@.name,
    ) && target[after[j]@.name] == after[j]@ by {
        if j < before.len() {
            lemma_as_map_at(before, j);
        }
    }
    assert forall|name: Seq<char>| #[trigger] target.contains_key(name) implies exists|j: int|
        holds_at(after, name, j) by {
        let j = if name == link@.name {
            before.len() as int
        } else {
            choose|j: int| holds_at(before, name, j)
        };
        assert(holds_at(after, name, j));
    }
    lemma_as_map_is(after, target);
}

/// Taking the record at `i` out by moving the last record into its place.
proof fn lemma_take_out(before: Seq<GoLink>, index: Map<Seq<char>, usize>, i: int)
    requires
        indexed(before, index),
        0 <= i < before.len() <= usize::MAX,
    ensures
        indexed(
            before.update(i, before.last()).drop_last(),
            if i == before.len() - 1 {
                index.remove(before[i]@.name)
            } else {
                index.remove(before[i]@.name).insert(before.last()@.name, i as usize)
            },
        ),
        as_map(before.update(i, before.last()).drop_last()) == as_map(before).remove(
            before[i]@.name,
        ),
{
    let last = before.len() - 1;
    let after = before.update(i, before.last()).drop_last();
    let shrunk = if i == last {
        index.remove(before[i]@.name)
    } else {
        index.remove(before[i]@.name).insert(before.last()@.name, i as usize)
    };
    let target = as_map(before).remove(before[i]@.name);
    lemma_indexed_distinct(before, index);
    assert(indexed(after, shrunk));
    assert forall|j: int| 0 <= j < after.len() implies target.contains_key(
        (#[trigger] after[j])@.name,
    ) && target[after[j]@.name] == after[j]@ by {
        lemma_as_map_at(before, if j == i { last } else { j });
    }
    assert forall|name: Seq<char>| #[trigger] target.contains_key(name) implies exists|j: int|
        holds_at(after, name, j) by {
        let j = choose|j: int| holds_at(before, name, j);
        assert(holds_at(after, name, if j == last { i } else { j }));
    }
    lemma_as_map_is(after, target);
}

/// The index from names to link records. No two of its records share a name.
///
/// A cache has one owner at a time: reading takes `&self` and writing
/// `&mut self`, so that no reader ever sees a write half done. Callers that
/// share a cache among threads put it behind a reader-writer lock.
pub struct Cache {
    /// The records, in no particular order.
    data: Vec<GoLink>,
    /// Where in `data` the record of each name stands.
    index: StringHashMap<usize>,
}

impl View for Cache {
    type V = Map<Seq<char>, LinkView>;

    closed spec fn view(&self) -> Map<Seq<char>, LinkView> {
        as_map(self.data@)
    }
}

impl Cache {
    #[verifier::type_invariant]
    closed spec fn well_formed(&self) -> bool {
        indexed(self.data@, self.index@)
    }

    /// An empty cache.
    pub fn new() -> (cache: Cache)
        ensures
            cache@ == Map::<Seq<char>, LinkView>::empty(),
    {
        Cache { data: Vec::new(), index: StringHashMap::new() }
    }

    /// Where the record of that name stands, if there is one.
    fn position(&self, id: &Id) -> (at: Option<usize>)
        ensures
            match at {
                Some(i) => holds_at(self.data@, id@, i as int),
                None => forall|i: int| !holds_at(self.data@, id@, i),
            },
    {
        proof {
            use_type_invariant(self);
        }
        match self.index.get(id.as_str()) {
            Some(i) => Some(*i),
            None => None,
        }
    }

    /// The record filed under `id`, if there is one. The cache stays as it is.
    pub fn get_link(&self, id: &Id) -> (found: Option<GoLink>)
        ensures
            view_of(found) == self@.index_opt(id@),
    {
        proof {
            use_type_invariant(self);
            lemma_indexed_distinct(self.data@, self.index@);
        }
        match self.position(id) {
            Some(i) => {
                proof {
                    lemma_as_map_at(self.data@, i as int);
                }
                Some(self.data[i].clone())
            },
            None => None,
        }
    }

    /// Files `link` under its name, in place of any record that was there.
    /// Always succeeds.
    pub fn put_link(&mut self, link: GoLink) -> (done: Result<(), &'static str>)
        ensures
            done is Ok,
            final(self)@ == old(self)@.insert(link@.name, link@),
    {
        proof {
            use_type_invariant(&*self);
        }
        let at = self.position(link.name());
        let mut taken = Cache::new();
        core::mem::swap(self, &mut taken);
        let Cache { mut data, mut index } = taken;
        match at {
            Some(i) => {
                proof {
                    lemma_overwrite(data@, index@, i as int, link);
                }
                data.set(i, link);
            },
            None => {
                let end = data.len();
                proof {
                    lemma_append(data@, index@, link);
                }
                index.insert(link.name().as_str().to_owned(), end);
                data.push(link);
            },
        }
        *self = Cache { data, index };
        Ok(())
    }

    /// Takes the record filed under `id` out of the cache. Fails, and leaves
    /// the cache as it was, if there is none.
    pub fn delete_link(&mut self, id: &Id) -> (done: Result<(), &'static str>)
        ensures
            done is Ok <==> old(self)@.contains_key(id@),
            final(self)@ == old(self)@.remove(id@),
            !old(self)@.contains_key(id@) ==> final(self)@ == old(self)@,
            done matches Err(message) ==> message@ == "Could't delete entry from cache"@,
    {
        proof {
            use_type_invariant(&*self);
        }
        match self.position(id) {
            Some(i) => {
                let mut taken = Cache::new();
                core::mem::swap(self, &mut taken);
                let Cache { mut data, mut index } = taken;
                let last = data.len() - 1;
                proof {
                    lemma_take_out(data@, index@, i as int);
                }
                index.remove(id.as_str());
                if i != last {
                    index.insert(data[last].name().as_str().to_owned(), i);
                }
                data.swap_remove(i);
                *self = Cache { data, index };
                Ok(())
            },
            None => Err("Could't delete entry from cache"),
        }
    }

    /// Puts the records of `links` in the place of all that the cache held. Of
    /// two records with one name the later stays. Always succeeds.
    pub fn set_values(&mut self, links: Vec<GoLink>) -> (done: Result<(), &'static str>)
        ensures
            done is Ok,
            final(self)@ == after_puts(Map::empty(), views(links@)),
    {
        let ghost all = links@;
        let mut fresh = Cache::new();
        for link in it: links
            invariant
                it.seq() == all,
                fresh@ == after_puts(Map::empty(), views(all.take(it.index() as int))),
        {
            proof {
                // The records up to this one are those before it and this one.
                let k = it.index() as int;
                assert(views(all.take(k + 1)).drop_last() == views(all.take(k)));
            }
            let _ = fresh.put_link(link);
        }
        assert(all.take(all.len() as int) == all);
        *self = fresh;
        Ok(())
    }

    /// A copy of every record in the cache, each once, in no particular order.
    pub fn get_values(&self) -> (all: Vec<GoLink>)
        ensures
            is_snapshot(views(all@), self@),
    {
        proof {
            use_type_invariant(self);
            lemma_indexed_distinct(self.data@, self.index@);
        }
        let mut all: Vec<GoLink> = Vec::new();
        let mut i: usize = 0;
        while i < self.data.len()
            invariant
                0 <= i <= self.data@.len(),
                all@.len() == i,
                forall|j: int| 0 <= j < i ==> (#[trigger] all@[j])@ == self.data@[j]@,
            decreases self.data@.len() - i,
        {
            all.push(self.data[i].clone());
            i += 1;
        }
        proof {
            lemma_listing(self.data@, views(all@));
        }
        all
    }

    /// The record whose name is the only one in the cache to match `id`
    /// approximately. Nothing if no name matches, and nothing if several do:
    /// the search never chooses among them.
    pub fn get_fuzzy(&self, id: &Id) -> (found: Option<GoLink>)
        ensures
            view_of(found) == sole_match(self@, id@),
    {
        proof {
            use_type_invariant(self);
            lemma_indexed_distinct(self.data@, self.index@);
        }
        let hits = fuzzy_hits(id.as_str(), &self.data);
        let found = pick_unique(&self.data, &hits);
        proof {
            lemma_sole_match(self.data@, id@, hits@);
        }
        found
    }

    /// Every record of a cache is filed under its own name, and a cache holds
    /// finitely many names.
    pub proof fn lemma_filed_by_name(&self)
        ensures
            filed_by_name(self@),
            self@.dom().finite(),
    {
        let records = self.data@;
        let names = records.map_values(|link: GoLink| link@.name);
        assert forall|name: Seq<char>| self@.dom().contains(name) <==> names.to_set().contains(
            name,
        ) by {
            if self@.dom().contains(name) {
                let i = choose|i: int| holds_at(records, name, i);
                assert(names[i] == name);
            }
            if names.to_set().contains(name) {
                let i = choose|i: int| 0 <= i < names.len() && names[i] == name;
                assert(holds_at(records, name, i));
            }
        }
        assert(self@.dom() =~= names.to_set());
        vstd::seq_lib::seq_to_set_is_finite(names);
    }
}

/// What the rule for the hits of a search picks is the cache's only match.
proof fn lemma_sole_match(records: Seq<GoLink>, query: Seq<char>, hits: Seq<usize>)
    requires
        names_distinct(records),
        are_hits(query, views(records), hits),
    ensures
        sole_match(as_map(records), query) == (if hits.len() == 1 {
            Some(records[hits[0] as int]@)
        } else {
            None
        }),
{
    let links = as_map(records);
    let items = views(records);
    // Every candidate stands at a position that `hits` holds.
    assert forall|name: Seq<char>| is_candidate(links, query, name) implies exists|k: int|
        0 <= k < hits.len() && holds_at(records, name, #[trigger] hits[k] as int) by {
        let j = choose|j: int| holds_at(records, name, j);
        assert(is_hit(hits, j)) by {
            assert(items[j].name == name);
        }
    }
    // Every position that `hits` holds is that of a candidate.
    assert forall|k: int| 0 <= k < hits.len() implies is_candidate(
        links,
        query,
        records[#[trigger] hits[k] as int]@.name,
    ) by {
        let j = hits[k] as int;
        lemma_as_map_at(records, j);
        assert(is_hit(hits, j) && items[j].name == records[j]@.name);
    }
    if hits.len() == 1 {
        let name = records[hits[0] as int]@.name;
        lemma_as_map_at(records, hits[0] as int);
        assert(is_sole_candidate(links, query, name));
    } else if hits.len() > 1 {
        let one = records[hits[0] as int]@.name;
        let other = records[hits[1] as int]@.name;
        assert(one != other);
        assert forall|name: Seq<char>| !is_sole_candidate(links, query, name) by {
            assert(is_candidate(links, query, one) && is_candidate(links, query, other));
        }
    }
}

/// Fills the cache at startup from a scan of the whole store: `scanned` holds
/// the records that the scan brought, or the reason why it failed. After a scan
/// that failed the cache is as it was, and the reason is handed on.
pub fn load_initial_data(cache: &mut Cache, scanned: Result<Vec<GoLink>, &'static str>) -> (done:
    Result<(), &'static str>)
    ensures
        match scanned {
            Ok(links) => done is Ok && final(cache)@ == after_puts(Map::empty(), views(links@)),
            Err(reason) => done matches Err(message) && message@ == reason@ && final(cache)@
                == old(cache)@,
        },
{
    match scanned {
        Ok(links) => cache.set_values(links),
        Err(reason) => Err(reason),
    }
}

/// Whether `listed` names every record of `links` once and nothing else.
pub open spec fn is_snapshot(listed: Seq<LinkView>, links: Map<Seq<char>, LinkView>) -> bool {
    &&& listed.no_duplicates()
    &&& listed.to_set() == links.values()
}

proof fn lemma_listing(records: Seq<GoLink>, listed: Seq<LinkView>)
    requires
        names_distinct(records),
        listed.len() == records.len(),
        forall|j: int| 0 <= j < records.len() ==> #[trigger] listed[j] == records[j]@,
    ensures
        is_snapshot(listed, as_map(records)),
{
    let links = as_map(records);
    assert(listed.no_duplicates()) by {
        assert forall|a: int, b: int| 0 <= a < b < listed.len() implies listed[a] != listed[b] by {
            assert(records[a]@.name != records[b]@.name);
        }
    }
    assert forall|link: LinkView| listed.to_set().contains(link) <==> links.values().contains(
        link,
    ) by {
        if listed.to_set().contains(link) {
            let j = choose|j: int| 0 <= j < listed.len() && listed[j] == link;
            lemma_as_map_at(records, j);
        }
        if links.values().contains(link) {
            let name = choose|name: Seq<char>| #[trigger]
                links.dom().contains(name) && links[name] == link;
            let j = choose|j: int| holds_at(records, name, j);
            lemma_as_map_at(records, j);
            assert(listed[j] == link);
        }
    }
    assert(listed.to_set() =~= links.values());
}

/// Whether the record at position `i` is the last of `records` to bear its
/// name.
pub open spec fn is_last_of_its_name(records: Seq<LinkView>, i: int) -> bool {
    &&& 0 <= i < records.len()
    &&& forall|j: int| i < j < records.len() ==> (#[trigger] records[j]).name != records[i].name
}

/// The records that stay when of each name only the last record is kept.
pub open spec fn unique_by_name(records: Seq<LinkView>) -> Set<LinkView> {
    Set::new(
        |link: LinkView|
            exists|i: int| is_last_of_its_name(records, i) && #[trigger] records[i] == link,
    )
}

/// Last write wins: after any run of puts, the cache answers a name that was
/// put with the record that was put last under it.
pub proof fn lemma_last_put_wins(start: Map<Seq<char>, LinkView>, puts: Seq<LinkView>, i: int)
    requires
        is_last_of_its_name(puts, i),
    ensures
        after_puts(start, puts).index_opt(puts[i].name) == Some(puts[i]),
    decreases puts.len(),
{
    if i < puts.len() - 1 {
        let earlier = puts.drop_last();
        assert(is_last_of_its_name(earlier, i)) by {
            assert forall|j: int| i < j < earlier.len() implies (#[trigger] earlier[j]).name
                != earlier[i].name by {
                assert(puts[j].name != puts[i].name);
            }
        }
        lemma_last_put_wins(start, earlier, i);
    }
}

/// A run of puts leaves every name that it does not put as it was.
pub proof fn lemma_puts_keep_other_names(
    start: Map<Seq<char>, LinkView>,
    puts: Seq<LinkView>,
    name: Seq<char>,
)
    requires
        forall|j: int| 0 <= j < puts.len() ==> (#[trigger] puts[j]).name != name,
    ensures
        after_puts(start, puts).index_opt(name) == start.index_opt(name),
    decreases puts.len(),
{
    if puts.len() > 0 {
        let earlier = puts.drop_last();
        assert forall|j: int| 0 <= j < earlier.len() implies (#[trigger] earlier[j]).name
            != name by {
            assert(puts[j].name != name);
        }
        lemma_puts_keep_other_names(start, earlier, name);
    }
}

proof fn lemma_key_was_put(records: Seq<LinkView>, name: Seq<char>) -> (i: int)
    requires
        after_puts(Map::empty(), records).contains_key(name),
    ensures
        is_last_of_its_name(records, i),
        records[i].name == name,
    decreases records.len(),
{
    let last = records.len() - 1;
    if records.len() == 0 {
        0
    } else if records[last].name == name {
        last
    } else {
        let earlier = records.drop_last();
        let i = lemma_key_was_put(earlier, name);
        assert forall|j: int| i < j < records.len() implies (#[trigger] records[j]).name
            != records[i].name by {
            if j < last {
                assert(earlier[j].name != earlier[i].name);
            }
        }
        i
    }
}

/// Replacing all that the cache holds by `records` and then listing it gives,
/// as a set, `records` with only the last record of each name kept, and gives
/// each of these once.
pub proof fn lemma_replace_then_list(records: Seq<LinkView>, listed: Seq<LinkView>)
    requires
        is_snapshot(listed, after_puts(Map::empty(), records)),
    ensures
        listed.to_set() == unique_by_name(records),
        listed.no_duplicates(),
{
    let links = after_puts(Map::empty(), records);
    assert forall|link: LinkView| links.values().contains(link) <==> unique_by_name(
        records,
    ).contains(link) by {
        if links.values().contains(link) {
            let name = choose|name: Seq<char>| #[trigger]
                links.dom().contains(name) && links[name] == link;
            let i = lemma_key_was_put(records, name);
            lemma_last_put_wins(Map::empty(), records, i);
        }
        if unique_by_name(records).contains(link) {
            let i = choose|i: int| is_last_of_its_name(records, i) && #[trigger] records[i] == link;
            lemma_last_put_wins(Map::empty(), records, i);
        }
    }
    assert(links.values() =~= unique_by_name(records));
}

} // verus!
