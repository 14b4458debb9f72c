use mediawiki_watchlist::aggregate::aggregate;
use mediawiki_watchlist::aggregate::aggregate_responses;
use mediawiki_watchlist::aggregate::FetchOutcome;
use mediawiki_watchlist::aggregate::FetchResponse;
use mediawiki_watchlist::config::WikiConfig;
use mediawiki_watchlist::error::Error;
use mediawiki_watchlist::item::WatchlistItem;

fn wiki(name: &str) -> WikiConfig {
    WikiConfig {
        display_name: name.to_owned(),
        api_url: format!("https://{}.example/api.php", name),
        index_url: format!("https://{}.example/index.php", name),
        username: "user".to_owned(),
        watchlist_token: "token".to_owned(),
    }
}

fn item(pageid: u64, old_revid: u64, title: &str) -> WatchlistItem {
    WatchlistItem { old_revid, pageid, title: title.to_owned() }
}

#[test]
fn aggregate_preserves_wiki_order_regardless_of_completion_order() {
    let configs = vec![wiki("alpha"), wiki("beta"), wiki("gamma")];
    let in_order = vec![
        (0usize, FetchOutcome::Items(vec![item(1, 5, "a")])),
        (1usize, FetchOutcome::Items(vec![item(2, 6, "b")])),
        (2usize, FetchOutcome::Items(vec![item(3, 7, "c")])),
    ];
    let reordered = vec![
        (2usize, FetchOutcome::Items(vec![item(3, 7, "c")])),
        (0usize, FetchOutcome::Items(vec![item(1, 5, "a")])),
        (1usize, FetchOutcome::Items(vec![item(2, 6, "b")])),
    ];
    let r1 = aggregate(&configs, &in_order).unwrap();
    let r2 = aggregate(&configs, &reordered).unwrap();
    let names1: Vec<String> = r1.wikis.iter().map(|p| p.0.display_name.clone()).collect();
    let names2: Vec<String> = r2.wikis.iter().map(|p| p.0.display_name.clone()).collect();
    assert_eq!(names1, vec!["alpha", "beta", "gamma"]);
    assert_eq!(names1, names2);
    for k in 0..3 {
        assert_eq!(r1.wikis[k].1.items, r2.wikis[k].1.items);
    }
}

#[test]
fn aggregate_reduces_each_wiki() {
    let configs = vec![wiki("alpha")];
    let fetched = vec![(
        0usize,
        FetchOutcome::Items(vec![item(1, 10, "Page"), item(1, 7, "Page"), item(2, 4, "Other")]),
    )];
    let agg = aggregate(&configs, &fetched).unwrap();
    assert_eq!(agg.wikis.len(), 1);
    assert_eq!(agg.wikis[0].1.items, vec![item(1, 7, "Page"), item(2, 4, "Other")]);
}

#[test]
fn aggregate_fails_fast_on_any_failure() {
    let configs = vec![wiki("alpha"), wiki("beta")];
    let fetched = vec![
        (0usize, FetchOutcome::Items(vec![item(1, 5, "a")])),
        (1usize, FetchOutcome::Failed(Error::Transport { detail: "beta down".to_owned() })),
    ];
    let err = aggregate(&configs, &fetched).unwrap_err();
    assert_eq!(err, Error::Transport { detail: "beta down".to_owned() });
}

#[test]
fn aggregate_reports_the_earliest_failing_wiki() {
    let configs = vec![wiki("alpha"), wiki("beta")];
    let fetched = vec![
        (1usize, FetchOutcome::Failed(Error::Transport { detail: "beta down".to_owned() })),
        (0usize, FetchOutcome::Failed(Error::Transport { detail: "alpha down".to_owned() })),
    ];
    let err = aggregate(&configs, &fetched).unwrap_err();
    assert_eq!(err, Error::Transport { detail: "alpha down".to_owned() });
}

#[test]
fn aggregate_of_no_wikis_is_empty() {
    let configs: Vec<WikiConfig> = Vec::new();
    let agg = aggregate(&configs, &Vec::new()).unwrap();
    assert_eq!(agg.wikis.len(), 0);
}

fn json(text: &str) -> serde_json::Value {
    serde_json::from_str(text).unwrap()
}

#[test]
fn aggregate_responses_runs_the_whole_pipeline() {
    let configs = vec![wiki("alpha"), wiki("beta")];
    let responses = vec![
        (
            1usize,
            FetchResponse::Json(json(r#"{"query":{"watchlist":[]}}"#)),
        ),
        (
            0usize,
            FetchResponse::Json(json(
                r#"{"query":{"watchlist":[
                    {"pageid":1,"old_revid":10,"title":"Main Page"},
                    {"pageid":1,"old_revid":7,"title":"Main Page"}
                ]}}"#,
            )),
        ),
    ];
    let agg = aggregate_responses(&configs, &responses).unwrap();
    assert_eq!(agg.wikis.len(), 2);
    assert_eq!(agg.wikis[0].0.display_name, "alpha");
    assert_eq!(agg.wikis[0].1.items, vec![item(1, 7, "Main Page")]);
    assert_eq!(agg.wikis[1].0.display_name, "beta");
    assert_eq!(agg.wikis[1].1.items, Vec::new());
}

#[test]
fn aggregate_responses_reports_missing_watchlist_field() {
    let configs = vec![wiki("alpha")];
    let responses = vec![(0usize, FetchResponse::Json(json(r#"{"query":{"pages":[]}}"#)))];
    let err = aggregate_responses(&configs, &responses).unwrap_err();
    match err {
        Error::WatchlistFormatOuter { wiki, raw } => {
            assert_eq!(wiki, "alpha");
            assert!(raw.contains("pages"));
        }
        other => panic!("expected the outer format error, got {:?}", other),
    }
}

#[test]
fn aggregate_responses_reports_malformed_entries() {
    let configs = vec![wiki("alpha")];
    let responses = vec![(
        0usize,
        FetchResponse::Json(json(
            r#"{"query":{"watchlist":[
                {"pageid":1,"old_revid":10,"title":"ok"},
                {"pageid":2,"title":"no old_revid"}
            ]}}"#,
        )),
    )];
    let err = aggregate_responses(&configs, &responses).unwrap_err();
    match err {
        Error::WatchlistFormatInner { wiki, detail } => {
            assert_eq!(wiki, "alpha");
            assert_eq!(detail, "watchlist entry 1 does not have the expected shape");
        }
        other => panic!("expected the inner format error, got {:?}", other),
    }
}

#[test]
fn aggregate_responses_reports_non_array_watchlist() {
    let configs = vec![wiki("alpha")];
    let responses = vec![(
        0usize,
        FetchResponse::Json(json(r#"{"query":{"watchlist":"oops"}}"#)),
    )];
    let err = aggregate_responses(&configs, &responses).unwrap_err();
    assert_eq!(
        err,
        Error::WatchlistFormatInner {
            wiki: "alpha".to_owned(),
            detail: "the watchlist field is not an array".to_owned(),
        }
    );
}

#[test]
fn aggregate_responses_propagates_transport_errors() {
    let configs = vec![wiki("alpha")];
    let responses = vec![(0usize, FetchResponse::Transport("timed out".to_owned()))];
    let err = aggregate_responses(&configs, &responses).unwrap_err();
    assert_eq!(err, Error::Transport { detail: "timed out".to_owned() });
}
