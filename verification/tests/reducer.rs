use mediawiki_watchlist::item::WatchlistItem;
use mediawiki_watchlist::reduce::reduce;

fn item(pageid: u64, old_revid: u64, title: &str) -> WatchlistItem {
    WatchlistItem { old_revid, pageid, title: title.to_owned() }
}

#[test]
fn reduce_of_empty_input_is_empty() {
    let reduced = reduce(&Vec::new());
    assert_eq!(reduced.items.len(), 0);
    assert_eq!(reduced.len(), 0);
}

#[test]
fn reduce_keeps_minimum_old_revid() {
    let raw = vec![item(1, 10, "Page"), item(1, 7, "Page")];
    let reduced = reduce(&raw);
    assert_eq!(reduced.items, vec![item(1, 7, "Page")]);
}

#[test]
fn reduce_is_permutation_invariant_for_distinct_revids() {
    let forward = vec![item(1, 10, "A"), item(1, 7, "B"), item(1, 9, "C")];
    let backward = vec![item(1, 9, "C"), item(1, 7, "B"), item(1, 10, "A")];
    let mixed = vec![item(1, 7, "B"), item(1, 10, "A"), item(1, 9, "C")];
    let r1 = reduce(&forward);
    let r2 = reduce(&backward);
    let r3 = reduce(&mixed);
    assert_eq!(r1.items, vec![item(1, 7, "B")]);
    assert_eq!(r1.items, r2.items);
    assert_eq!(r1.items, r3.items);
}

#[test]
fn reduce_keeps_first_record_among_equal_revids() {
    // A stored record is replaced only by a strictly smaller old revision
    // id, so the first of two equal records stays.
    let raw = vec![item(4, 5, "first"), item(4, 5, "second")];
    let reduced = reduce(&raw);
    assert_eq!(reduced.items, vec![item(4, 5, "first")]);
}

#[test]
fn reduce_compares_on_every_occurrence() {
    // The replacement happens on every later occurrence, including the
    // very first duplicate.
    let raw = vec![item(2, 9, "late"), item(2, 3, "early"), item(2, 6, "middle")];
    let reduced = reduce(&raw);
    assert_eq!(reduced.items, vec![item(2, 3, "early")]);
}

#[test]
fn reduce_orders_pages_by_ascending_pageid() {
    let raw = vec![item(9, 1, "nine"), item(3, 2, "three"), item(5, 3, "five")];
    let reduced = reduce(&raw);
    let ids: Vec<u64> = reduced.items.iter().map(|it| it.pageid).collect();
    assert_eq!(ids, vec![3, 5, 9]);
}

#[test]
fn reduce_handles_many_pages_with_duplicates() {
    let raw = vec![
        item(7, 40, "G"),
        item(2, 11, "B"),
        item(7, 35, "G"),
        item(2, 12, "B2"),
        item(1, 99, "A"),
        item(7, 37, "G2"),
    ];
    let reduced = reduce(&raw);
    assert_eq!(
        reduced.items,
        vec![item(1, 99, "A"), item(2, 11, "B"), item(7, 35, "G")]
    );
}
