use golinks::cache::Cache;
use golinks::db::{delete_link, get_all_links, get_link_url, link_from_row, post_link};
use golinks::golink::{GoLink, Id};
use golinks::resolver::{begin_resolve, finish_resolve, get_golink_by_id, remove, Step};

fn id(text: &str) -> Id {
    Id::from_param(text).unwrap()
}

fn link(name: &str, url: &str) -> GoLink {
    GoLink::new(id(name), String::from(url)).unwrap()
}

fn pair(link: &GoLink) -> (String, String) {
    (String::from(link.name().as_str()), link.url().clone())
}

fn owned(name: &str, url: &str) -> (String, String) {
    (String::from(name), String::from(url))
}

/// A store for the tests: rows of a name and a URL, each name once.
struct Rows(Vec<(String, String)>);

impl Rows {
    fn get(&self, id: &Id) -> Option<(String, String)> {
        self.0.iter().find(|row| row.0 == id.as_str()).cloned()
    }

    fn insert(&mut self, link: &GoLink) -> Result<(), &'static str> {
        let free = self.get(link.name()).is_none();
        if free {
            self.0.push(pair(link));
        }
        post_link(free)
    }

    fn delete(&mut self, id: &Id) -> Result<(), &'static str> {
        self.0.retain(|row| row.0 != id.as_str());
        delete_link(true)
    }
}

fn resolve(id: &Id, cache: &mut Cache, store: &Rows) -> Option<GoLink> {
    get_golink_by_id(id, cache, |id| get_link_url(id, store.get(id)))
}

fn resolve_in_steps(id: &Id, cache: &mut Cache, store: &Rows) -> Option<GoLink> {
    match begin_resolve(id, cache) {
        Step::Answer(link) => Some(link),
        Step::AskStore => finish_resolve(id, cache, get_link_url(id, store.get(id))),
    }
}

#[test]
fn resolve_from_the_store_fills_the_cache() {
    let mut cache = Cache::new();
    let store = Rows(vec![owned("docs", "https://docs.example.org")]);
    let found = resolve(&id("docs"), &mut cache, &store).unwrap();
    assert_eq!(pair(&found), owned("docs", "https://docs.example.org"));
    let cached = cache.get_link(&id("docs")).unwrap();
    assert_eq!(pair(&cached), owned("docs", "https://docs.example.org"));
    assert!(matches!(begin_resolve(&id("docs"), &cache), Step::Answer(_)));
}

#[test]
fn resolve_of_an_unknown_name_is_absent() {
    let mut cache = Cache::new();
    cache.put_link(link("github", "https://github.com")).unwrap();
    let store = Rows(vec![owned("github", "https://github.com")]);
    assert!(resolve(&id("zzz"), &mut cache, &store).is_none());
    assert_eq!(cache.get_values().len(), 1);
    assert!(resolve(&id("docs"), &mut Cache::new(), &Rows(Vec::new())).is_none());
}

#[test]
fn create_then_resolve_returns_the_record() {
    let mut cache = Cache::new();
    let mut store = Rows(Vec::new());
    let record = link("docs", "https://docs.example.org");
    assert_eq!(store.insert(&record), Ok(()));
    assert!(cache.get_link(&id("docs")).is_none());
    let found = resolve(record.name(), &mut cache, &store).unwrap();
    assert_eq!(pair(&found), pair(&record));
}

#[test]
fn resolve_answers_from_the_cache_first() {
    let mut cache = Cache::new();
    cache.put_link(link("docs", "https://cached.example.org")).unwrap();
    let store = Rows(vec![owned("docs", "https://stored.example.org")]);
    let found = resolve(&id("docs"), &mut cache, &store).unwrap();
    assert_eq!(found.url(), "https://cached.example.org");
}

#[test]
fn resolve_does_not_ask_the_store_on_a_hit() {
    let mut cache = Cache::new();
    cache.put_link(link("docs", "https://docs.example.org")).unwrap();
    let found = get_golink_by_id(&id("docs"), &mut cache, |_| unreachable!());
    assert_eq!(found.unwrap().url(), "https://docs.example.org");
}

#[test]
fn resolve_in_two_steps_does_the_same() {
    let store = Rows(vec![owned("docs", "https://docs.example.org")]);
    for name in ["docs", "dcs", "zzz"] {
        let mut whole = Cache::new();
        let mut steps = Cache::new();
        whole.put_link(link("wiki", "https://wiki.example.org")).unwrap();
        steps.put_link(link("wiki", "https://wiki.example.org")).unwrap();
        let a = resolve(&id(name), &mut whole, &store);
        let b = resolve_in_steps(&id(name), &mut steps, &store);
        assert_eq!(a.as_ref().map(pair), b.as_ref().map(pair));
        assert_eq!(whole.get_values().len(), steps.get_values().len());
    }
}

#[test]
fn resolve_falls_back_to_the_fuzzy_search() {
    let mut cache = Cache::new();
    cache.put_link(link("github", "https://github.com")).unwrap();
    cache.put_link(link("wiki", "https://wiki.example.org")).unwrap();
    let store = Rows(Vec::new());
    let found = resolve(&id("githb"), &mut cache, &store).unwrap();
    assert_eq!(pair(&found), owned("github", "https://github.com"));
    assert!(cache.get_link(&id("githb")).is_none());
    assert_eq!(cache.get_values().len(), 2);
}

#[test]
fn resolve_does_not_search_the_store_fuzzily() {
    let mut cache = Cache::new();
    let store = Rows(vec![owned("github", "https://github.com")]);
    assert!(resolve(&id("githb"), &mut cache, &store).is_none());
}

#[test]
fn first_step_asks_the_store_on_a_miss() {
    let cache = Cache::new();
    assert!(matches!(begin_resolve(&id("docs"), &cache), Step::AskStore));
}

#[test]
fn store_that_could_not_answer_counts_as_a_miss() {
    let mut cache = Cache::new();
    cache.put_link(link("wiki", "https://wiki.example.org")).unwrap();
    let found = finish_resolve(&id("wik"), &mut cache, None).unwrap();
    assert_eq!(pair(&found), owned("wiki", "https://wiki.example.org"));
    assert!(finish_resolve(&id("zzz"), &mut cache, None).is_none());
}

#[test]
fn record_of_another_name_is_no_answer() {
    let mut cache = Cache::new();
    let other = link("wiki", "https://wiki.example.org");
    assert!(finish_resolve(&id("docs"), &mut cache, Some(other)).is_none());
    assert!(cache.get_values().is_empty());
}

#[test]
fn remove_takes_the_name_out_of_cache_and_store() {
    let mut cache = Cache::new();
    let mut store = Rows(vec![owned("docs", "https://docs.example.org")]);
    assert!(resolve(&id("docs"), &mut cache, &store).is_some());
    let erased = store.delete(&id("docs"));
    assert_eq!(remove(&id("docs"), &mut cache, erased), Ok(()));
    assert!(cache.get_link(&id("docs")).is_none());
    assert!(resolve(&id("docs"), &mut cache, &store).is_none());
}

#[test]
fn remove_of_a_name_that_the_cache_lacks_succeeds() {
    let mut cache = Cache::new();
    cache.put_link(link("wiki", "https://wiki.example.org")).unwrap();
    assert_eq!(remove(&id("docs"), &mut cache, Ok(())), Ok(()));
    assert_eq!(cache.get_values().len(), 1);
}

#[test]
fn remove_hands_on_the_failure_of_the_store() {
    let mut cache = Cache::new();
    cache.put_link(link("docs", "https://docs.example.org")).unwrap();
    let erased = Err("Couldn't delete link from database");
    assert_eq!(remove(&id("docs"), &mut cache, erased), Err("Couldn't delete link from database"));
    assert!(cache.get_link(&id("docs")).is_none());
}

#[test]
fn duplicate_insert_is_an_error_and_resolve_keeps_the_first() {
    let mut cache = Cache::new();
    let mut store = Rows(Vec::new());
    store.insert(&link("docs", "https://one.example.org")).unwrap();
    assert!(store.insert(&link("docs", "https://two.example.org")).is_err());
    assert_eq!(resolve(&id("docs"), &mut cache, &store).unwrap().url(), "https://one.example.org");
}

#[test]
fn rows_become_records() {
    let rows = vec![
        owned("docs", "https://docs.example.org"),
        owned("my-link", "https://example.org"),
        owned("wiki", "not-a-url"),
        owned("mail", "https://mail.example.org"),
        owned("docs", "https://docs2.example.org"),
    ];
    let links = get_all_links(Some(rows)).unwrap();
    let listed: Vec<(String, String)> = links.iter().map(pair).collect();
    assert_eq!(
        listed,
        vec![
            owned("docs", "https://docs.example.org"),
            owned("mail", "https://mail.example.org"),
            owned("docs", "https://docs2.example.org"),
        ]
    );
    assert!(get_all_links(Some(Vec::new())).unwrap().is_empty());
}

#[test]
fn scan_that_failed_is_an_error() {
    assert_eq!(get_all_links(None).unwrap_err(), "Couldn't load links from database");
}

#[test]
fn row_becomes_a_record_if_it_is_valid() {
    let found = link_from_row("docs", String::from("https://docs.example.org")).unwrap();
    assert_eq!(pair(&found), owned("docs", "https://docs.example.org"));
    assert!(link_from_row("do cs", String::from("https://docs.example.org")).is_none());
    assert!(link_from_row("docs", String::from("docs.example.org")).is_none());
    assert!(link_from_row("", String::from("https://docs.example.org")).is_none());
}

#[test]
fn row_that_was_looked_up() {
    let row = Some(owned("docs", "https://docs.example.org"));
    assert_eq!(pair(&get_link_url(&id("docs"), row).unwrap()), owned("docs", "https://docs.example.org"));
    assert!(get_link_url(&id("docs"), None).is_none());
    assert!(get_link_url(&id("docs"), Some(owned("wiki", "https://wiki.example.org"))).is_none());
    assert!(get_link_url(&id("docs"), Some(owned("docs", "nowhere"))).is_none());
}

#[test]
fn outcomes_of_writes_to_the_store() {
    assert_eq!(post_link(true), Ok(()));
    assert_eq!(post_link(false), Err("Couldn't insert link in database"));
    assert_eq!(delete_link(true), Ok(()));
    assert_eq!(delete_link(false), Err("Couldn't delete link from database"));
}
