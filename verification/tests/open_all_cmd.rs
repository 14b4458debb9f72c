use mediawiki_watchlist::config::WikiConfig;
use mediawiki_watchlist::error::Error;
use mediawiki_watchlist::item::WatchlistItem;
use mediawiki_watchlist::open_all::find_wiki;
use mediawiki_watchlist::open_all::open_all_urls;
use mediawiki_watchlist::open_all::POST_OPEN_DELAY_SECS;
use mediawiki_watchlist::reduce::reduce;
use mediawiki_watchlist::watchlist::item_from_fields;
use mediawiki_watchlist::watchlist::watchlist_query;
use mediawiki_watchlist::watchlist::FETCH_TIMEOUT_SECS;

fn wiki(name: &str) -> WikiConfig {
    WikiConfig {
        display_name: name.to_owned(),
        api_url: format!("https://{}.example/api.php", name),
        index_url: format!("https://{}.example/index.php", name),
        username: "user".to_owned(),
        watchlist_token: "token".to_owned(),
    }
}

fn item(pageid: u64, old_revid: u64, title: &str) -> WatchlistItem {
    WatchlistItem { old_revid, pageid, title: title.to_owned() }
}

#[test]
fn find_wiki_returns_the_unique_match() {
    let configs = vec![wiki("alpha"), wiki("beta"), wiki("gamma")];
    assert_eq!(find_wiki(&configs, &"beta".to_owned()), Ok(1));
    assert_eq!(find_wiki(&configs, &"alpha".to_owned()), Ok(0));
}

#[test]
fn find_wiki_rejects_an_unknown_name() {
    let configs = vec![wiki("alpha"), wiki("beta")];
    assert_eq!(
        find_wiki(&configs, &"nowhere".to_owned()),
        Err(Error::UnknownWiki { name: "nowhere".to_owned() })
    );
}

#[test]
fn find_wiki_rejects_an_ambiguous_name() {
    let configs = vec![wiki("alpha"), wiki("alpha")];
    assert_eq!(
        find_wiki(&configs, &"alpha".to_owned()),
        Err(Error::UnknownWiki { name: "alpha".to_owned() })
    );
}

#[test]
fn find_wiki_finds_nothing_in_an_empty_configuration() {
    let configs: Vec<WikiConfig> = Vec::new();
    assert_eq!(
        find_wiki(&configs, &"alpha".to_owned()),
        Err(Error::UnknownWiki { name: "alpha".to_owned() })
    );
}

#[test]
fn open_all_launches_one_url_per_unread_page() {
    let w = wiki("alpha");
    let reduced = reduce(&vec![item(3, 20, "B"), item(1, 10, "A"), item(3, 15, "B")]);
    let urls = open_all_urls(&w, &reduced);
    assert_eq!(
        urls,
        vec![
            "https://alpha.example/index.php?pageid=1&diff=next&oldid=10".to_owned(),
            "https://alpha.example/index.php?pageid=3&diff=next&oldid=15".to_owned(),
        ]
    );
}

#[test]
fn open_all_with_nothing_unread_launches_nothing() {
    let w = wiki("alpha");
    let reduced = reduce(&Vec::new());
    assert_eq!(open_all_urls(&w, &reduced), Vec::<String>::new());
}

#[test]
fn the_fixed_delays_are_as_designed() {
    assert_eq!(POST_OPEN_DELAY_SECS, 2);
    assert_eq!(FETCH_TIMEOUT_SECS, 30);
}

#[test]
fn watchlist_query_asks_for_all_unread_revisions() {
    let q = watchlist_query("alice", "s3cret");
    assert_eq!(
        q,
        vec![
            ("action".to_owned(), "query".to_owned()),
            ("list".to_owned(), "watchlist".to_owned()),
            ("wlallrev".to_owned(), "1".to_owned()),
            ("wldir".to_owned(), "newer".to_owned()),
            ("wllimit".to_owned(), "max".to_owned()),
            ("wlshow".to_owned(), "unread".to_owned()),
            ("wlowner".to_owned(), "alice".to_owned()),
            ("wltoken".to_owned(), "s3cret".to_owned()),
        ]
    );
}

#[test]
fn item_from_fields_needs_all_three_fields() {
    assert_eq!(
        item_from_fields(Some(1), Some(2), Some("t".to_owned())),
        Some(WatchlistItem { old_revid: 2, pageid: 1, title: "t".to_owned() })
    );
    assert_eq!(item_from_fields(None, Some(2), Some("t".to_owned())), None);
    assert_eq!(item_from_fields(Some(1), None, Some("t".to_owned())), None);
    assert_eq!(item_from_fields(Some(1), Some(2), None), None);
}
