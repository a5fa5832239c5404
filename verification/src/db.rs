//! What the durable store hands over, taken as plain rows, and a model of the
//! store itself for the laws that speak of it.

use vstd::prelude::*;

use crate::golink::{valid_id_text, views, GoLink, Id, LinkView};
use crate::weburl::parses_as_url;

verus! {

/// Whether a stored row of a name and a URL stands for a link record.
pub open spec fn is_valid_row(name: Seq<char>, url: Seq<char>) -> bool {
    valid_id_text(name) && parses_as_url(url)
}

/// The texts of a row.
pub open spec fn row_view(row: (String, String)) -> (Seq<char>, Seq<char>) {
    (row.0@, row.1@)
}

/// The records that the rows stand for, in the order of the rows; a row that
/// is not valid stands for none.
pub open spec fn links_of_rows(rows: Seq<(Seq<char>, Seq<char>)>) -> Seq<LinkView>
    decreases rows.len(),
{
    if rows.len() == 0 {
        Seq::empty()
    } else {
        let before = links_of_rows(rows.drop_last());
        let (name, url) = rows.last();
        if is_valid_row(name, url) {
            before.push(LinkView { name, url })
        } else {
            before
        }
    }
}

/// The record that a stored row stands for, if the row is valid.
pub fn link_from_row(name: &str, url: String) -> (link: Option<GoLink>)
    ensures
        link is Some <==> is_valid_row(name@, url@),
        link matches Some(link) ==> link@ == (LinkView { name: name@, url: url@ }),
{
    match Id::from_param(name) {
        Ok(id) => GoLink::new(id, url),
        Err(_) => None,
    }
}

/// Turns the outcome of a scan of the whole store into records: `rows` is what
/// the scan returned, or nothing if it failed.
pub fn get_all_links(rows: Option<Vec<(String, String)>>) -> (links: Result<
    Vec<GoLink>,
    &'static str,
>)
    ensures
        match rows {
            Some(rows) => links matches Ok(links) && views(links@) == links_of_rows(
                rows@.map_values(|row: (String, String)| row_view(row)),
            ),
            None => links matches Err(message) && message@
                == "Couldn't load links from database"@,
        },
{
    match rows {
        Some(rows) => {
            let ghost all = rows@.map_values(|row: (String, String)| row_view(row));
            let mut links: Vec<GoLink> = Vec::new();
            for row in it: rows
                invariant
                    it.seq().map_values(|row: (String, String)| row_view(row)) == all,
                    views(links@) == links_of_rows(all.take(it.index() as int)),
            {
                let ghost k = it.index() as int;
                let ghost before = links@;
                let (name, url) = row;
                proof {
                    // The rows up to this one are those before it and this one.
                    assert(all.take(k + 1).drop_last() == all.take(k));
                }
                match link_from_row(name.as_str(), url) {
                    Some(link) => {
                        links.push(link);
                        assert(views(links@) == views(before).push(link@));
                    },
                    None => {},
                }
            }
            assert(all.take(all.len() as int) == all);
            Ok(links)
        },
        None => Err("Couldn't load links from database"),
    }
}

/// Turns the outcome of a lookup of `id` in the store into a record: `row` is
/// the row that was found, if any. A row that is not valid, or that bears
/// another name than `id`, is no answer.
pub fn get_link_url(id: &Id, row: Option<(String, String)>) -> (link: Option<GoLink>)
    ensures
        match row {
            Some(row) => {
                &&& link is Some <==> row.0@ == id@ && parses_as_url(row.1@)
                &&& link matches Some(link) ==> link@ == (LinkView { name: id@, url: row.1@ })
            },
            None => link is None,
        },
{
    proof {
        use_type_invariant(id);
    }
    match row {
        Some(row) => {
            let (name, url) = row;
            match link_from_row(name.as_str(), url) {
                Some(link) => {
                    if *link.name() == *id {
                        Some(link)
                    } else {
                        None
                    }
                },
                None => None,
            }
        },
        None => None,
    }
}

/// What the store holds after it was told to create `record`: it takes the
/// record unless it already holds one of that name, which is an error.
pub open spec fn created(store: Map<Seq<char>, LinkView>, record: LinkView) -> Option<
    Map<Seq<char>, LinkView>,
> {
    if store.contains_key(record.name) {
        None
    } else {
        Some(store.insert(record.name, record))
    }
}

/// The outcome of the insert of a record, given whether the store carried it
/// out. The store refuses a name that it already holds. The cache takes no
/// part in an insert: the record reaches it with the first lookup of its name.
pub fn post_link(stored: bool) -> (done: Result<(), &'static str>)
    ensures
        done is Ok <==> stored,
        done matches Err(message) ==> message@ == "Couldn't insert link in database"@,
{
    if stored {
        Ok(())
    } else {
        Err("Couldn't insert link in database")
    }
}

/// The outcome of the deletion of a name, given whether the store carried it
/// out. A name that the store does not hold is deleted without fault.
pub fn delete_link(erased: bool) -> (done: Result<(), &'static str>)
    ensures
        done is Ok <==> erased,
        done matches Err(message) ==> message@ == "Couldn't delete link from database"@,
{
    if erased {
        Ok(())
    } else {
        Err("Couldn't delete link from database")
    }
}

} // verus!
