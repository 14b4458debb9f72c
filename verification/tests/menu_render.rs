use mediawiki_watchlist::aggregate::aggregate;
use mediawiki_watchlist::aggregate::aggregate_responses;
use mediawiki_watchlist::aggregate::FetchOutcome;
use mediawiki_watchlist::aggregate::FetchResponse;
use mediawiki_watchlist::config::WikiConfig;
use mediawiki_watchlist::error::Error;
use mediawiki_watchlist::item::WatchlistItem;
use mediawiki_watchlist::menu::error_lines;
use mediawiki_watchlist::menu::error_menu;
use mediawiki_watchlist::menu::render;
use mediawiki_watchlist::menu::total_count;
use mediawiki_watchlist::menu::MenuEntry;
use mediawiki_watchlist::text::decimal_string;
use mediawiki_watchlist::text::diff_url;

fn wiki(name: &str) -> WikiConfig {
    WikiConfig {
        display_name: name.to_owned(),
        api_url: format!("https://{}.example/api.php", name),
        index_url: format!("https://{}.example/index.php", name),
        username: "user".to_owned(),
        watchlist_token: "token".to_owned(),
    }
}

fn item(pageid: u64, old_revid: u64, title: &str) -> WatchlistItem {
    WatchlistItem { old_revid, pageid, title: title.to_owned() }
}

fn outcome(items: Vec<WatchlistItem>) -> FetchOutcome {
    FetchOutcome::Items(items)
}

#[test]
fn menu_is_empty_when_nothing_is_unread() {
    let configs = vec![wiki("alpha"), wiki("beta")];
    let fetched = vec![(0usize, outcome(vec![])), (1usize, outcome(vec![]))];
    let agg = aggregate(&configs, &fetched).unwrap();
    assert_eq!(total_count(&agg), 0);
    let menu = render(&agg, true);
    assert_eq!(menu, Vec::new());
}

#[test]
fn menu_has_one_separator_per_nonempty_wiki() {
    let configs = vec![wiki("alpha"), wiki("beta"), wiki("gamma")];
    let fetched = vec![
        (0usize, outcome(vec![item(1, 5, "a")])),
        (1usize, outcome(vec![])),
        (2usize, outcome(vec![item(2, 6, "c"), item(3, 7, "d")])),
    ];
    let agg = aggregate(&configs, &fetched).unwrap();
    let menu = render(&agg, true);
    let separators = menu
        .iter()
        .filter(|e| matches!(e, MenuEntry::Separator))
        .count();
    assert_eq!(separators, 2);
    let labels: Vec<String> = menu
        .iter()
        .filter_map(|e| match e {
            MenuEntry::OpenAllLink { label, .. } => Some(label.clone()),
            _ => None,
        })
        .collect();
    assert_eq!(labels, vec!["alpha", "gamma"]);
}

#[test]
fn menu_header_shows_the_total_count() {
    let configs = vec![wiki("alpha"), wiki("beta")];
    let fetched = vec![
        (0usize, outcome(vec![item(1, 5, "a"), item(2, 6, "b")])),
        (1usize, outcome(vec![item(9, 7, "c")])),
    ];
    let agg = aggregate(&configs, &fetched).unwrap();
    assert_eq!(total_count(&agg), 3);
    let menu = render(&agg, true);
    assert_eq!(menu[0], MenuEntry::Header { text: "3".to_owned() });
}

#[test]
fn menu_degrades_to_plain_label_without_executable_path() {
    let configs = vec![wiki("alpha")];
    let fetched = vec![(0usize, outcome(vec![item(1, 5, "a")]))];
    let agg = aggregate(&configs, &fetched).unwrap();
    let menu = render(&agg, false);
    assert_eq!(menu[2], MenuEntry::PlainLabel { text: "alpha".to_owned() });
    let clickable = render(&agg, true);
    assert_eq!(
        clickable[2],
        MenuEntry::OpenAllLink { label: "alpha".to_owned(), wiki: "alpha".to_owned() }
    );
}

#[test]
fn diff_links_match_the_template_byte_for_byte() {
    assert_eq!(
        diff_url("https://alpha.example/index.php", 12, 345),
        "https://alpha.example/index.php?pageid=12&diff=next&oldid=345"
    );
    assert_eq!(diff_url("", 0, 0), "?pageid=0&diff=next&oldid=0");
    assert_eq!(
        diff_url("x", u64::MAX, 1),
        "x?pageid=18446744073709551615&diff=next&oldid=1"
    );
}

#[test]
fn rendered_page_entries_carry_exact_diff_links() {
    let configs = vec![wiki("alpha")];
    let fetched = vec![(0usize, outcome(vec![item(7, 31, "Some Page")]))];
    let agg = aggregate(&configs, &fetched).unwrap();
    let menu = render(&agg, true);
    assert_eq!(
        menu[3],
        MenuEntry::PageLink {
            label: "Some Page".to_owned(),
            url: "https://alpha.example/index.php?pageid=7&diff=next&oldid=31".to_owned(),
        }
    );
}

#[test]
fn end_to_end_two_wikis_one_unread_page() {
    // Wiki A answers with two records for one page, wiki B with none: the
    // menu holds the count, one block for A, and nothing for B.
    let configs = vec![wiki("a"), wiki("b")];
    let responses = vec![
        (
            0usize,
            FetchResponse::Json(
                serde_json::from_str(
                    r#"{"query":{"watchlist":[
                        {"pageid":1,"old_revid":10,"title":"Topic"},
                        {"pageid":1,"old_revid":7,"title":"Topic"}
                    ]}}"#,
                )
                .unwrap(),
            ),
        ),
        (
            1usize,
            FetchResponse::Json(serde_json::from_str(r#"{"query":{"watchlist":[]}}"#).unwrap()),
        ),
    ];
    let agg = aggregate_responses(&configs, &responses).unwrap();
    assert_eq!(agg.wikis[0].1.items, vec![item(1, 7, "Topic")]);
    assert_eq!(total_count(&agg), 1);
    let menu = render(&agg, true);
    assert_eq!(
        menu,
        vec![
            MenuEntry::Header { text: "1".to_owned() },
            MenuEntry::Separator,
            MenuEntry::OpenAllLink { label: "a".to_owned(), wiki: "a".to_owned() },
            MenuEntry::PageLink {
                label: "Topic".to_owned(),
                url: "https://a.example/index.php?pageid=1&diff=next&oldid=7".to_owned(),
            },
        ]
    );
}

#[test]
fn decimal_rendering_matches_std() {
    assert_eq!(decimal_string(0), "0");
    assert_eq!(decimal_string(7), "7");
    assert_eq!(decimal_string(10), "10");
    assert_eq!(decimal_string(12345), "12345");
    assert_eq!(decimal_string(u64::MAX as u128), u64::MAX.to_string());
    assert_eq!(decimal_string(u128::MAX), u128::MAX.to_string());
}

#[test]
fn error_lines_describe_each_kind() {
    assert_eq!(
        error_lines(&Error::MissingConfig),
        vec!["missing or invalid configuration file"]
    );
    assert_eq!(
        error_lines(&Error::ConfigFormat { detail: "bad json".to_owned() }),
        vec!["error in config file: bad json"]
    );
    assert_eq!(
        error_lines(&Error::Transport { detail: "timed out".to_owned() }),
        vec!["timed out"]
    );
    assert_eq!(
        error_lines(&Error::WatchlistFormatOuter {
            wiki: "alpha".to_owned(),
            raw: "{}".to_owned(),
        }),
        vec!["did not receive watchlist for alpha, received:", "{}"]
    );
    assert_eq!(
        error_lines(&Error::WatchlistFormatInner {
            wiki: "alpha".to_owned(),
            detail: "entry 0".to_owned(),
        }),
        vec!["received incorrectly formatted watchlist for alpha", "entry 0"]
    );
    assert_eq!(
        error_lines(&Error::UnknownWiki { name: "nowhere".to_owned() }),
        vec!["error in open_all command: unknown wiki: nowhere"]
    );
    assert_eq!(
        error_lines(&Error::Subprocess { detail: "spawn failed".to_owned() }),
        vec!["spawn failed"]
    );
}

#[test]
fn error_menu_turns_every_line_into_a_plain_label() {
    let menu = error_menu(&Error::WatchlistFormatOuter {
        wiki: "alpha".to_owned(),
        raw: "{\"a\":1}".to_owned(),
    });
    assert_eq!(
        menu,
        vec![
            MenuEntry::PlainLabel {
                text: "did not receive watchlist for alpha, received:".to_owned(),
            },
            MenuEntry::PlainLabel { text: "{\"a\":1}".to_owned() },
        ]
    );
}
