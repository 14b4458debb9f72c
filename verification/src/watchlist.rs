//! Fetch support: the watchlist query and the response extraction.
//!
//! The HTTP call itself is the host application's business; this module
//! pins down what is asked of the wiki and how the parsed JSON response is
//! turned into records or into the two watchlist-format errors.

use vstd::prelude::*;

use crate::config::ConfigModel;
use crate::config::WikiConfig;
use crate::error::Error;
use crate::error::ErrorModel;
use crate::item::ItemModel;
use crate::item::WatchlistItem;
use crate::json::array_of;
use crate::json::field_of;
use crate::json::json_as_array;
use crate::json::json_as_string;
use crate::json::json_as_u64;
use crate::json::json_get;
use crate::json::json_pointer;
use crate::json::json_to_text;
use crate::json::pointer_of;
use crate::json::string_of;
use crate::json::text_of;
use crate::json::u64_of;
use crate::text::decimal_digits;
use crate::text::push_decimal;

verus! {

/// How many seconds one wiki fetch may take before it counts as a
/// transport failure, so one unreachable wiki cannot hang the whole run.
pub const FETCH_TIMEOUT_SECS: u64 = 30;

/// The query parameters of an authenticated unread-watchlist request: all
/// revisions, oldest first, maximum page size, unread only, for the
/// configured user and token.
pub open spec fn query_model(username: Seq<char>, token: Seq<char>) -> Seq<(Seq<char>, Seq<char>)> {
    seq![
        ("action"@, "query"@),
        ("list"@, "watchlist"@),
        ("wlallrev"@, "1"@),
        ("wldir"@, "newer"@),
        ("wllimit"@, "max"@),
        ("wlshow"@, "unread"@),
        ("wlowner"@, username),
        ("wltoken"@, token),
    ]
}

/// The model of an owned parameter list.
pub open spec fn pairs_model(q: Seq<(String, String)>) -> Seq<(Seq<char>, Seq<char>)> {
    q.map_values(|p: (String, String)| (p.0@, p.1@))
}

/// Builds the watchlist query parameters for one wiki's user and token.
pub fn watchlist_query(username: &str, token: &str) -> (q: Vec<(String, String)>)
    ensures
        pairs_model(q@) == query_model(username@, token@),
{
    let mut q: Vec<(String, String)> = Vec::new();
    q.push(("action".to_owned(), "query".to_owned()));
    q.push(("list".to_owned(), "watchlist".to_owned()));
    q.push(("wlallrev".to_owned(), "1".to_owned()));
    q.push(("wldir".to_owned(), "newer".to_owned()));
    q.push(("wllimit".to_owned(), "max".to_owned()));
    q.push(("wlshow".to_owned(), "unread".to_owned()));
    q.push(("wlowner".to_owned(), username.to_owned()));
    q.push(("wltoken".to_owned(), token.to_owned()));
    proof {
        assert(pairs_model(q@) =~= query_model(username@, token@));
    }
    q
}

/// Builds one record from the three extracted fields; there is a record
/// exactly when all three fields were present.
pub fn item_from_fields(pageid: Option<u64>, old_revid: Option<u64>, title: Option<String>) -> (r:
    Option<WatchlistItem>)
    ensures
        (r is Some <==> pageid is Some && old_revid is Some && title is Some),
        (r matches Some(it) ==> it@ == (ItemModel {
            old_revid: old_revid->Some_0,
            pageid: pageid->Some_0,
            title: title->Some_0@,
        })),
{
    match (pageid, old_revid, title) {
        (Some(p), Some(o), Some(t)) => Some(WatchlistItem { old_revid: o, pageid: p, title: t }),
        _ => None,
    }
}

/// The number behind a key of an entry: the key looked up, then read as
/// an unsigned integer.
pub open spec fn entry_u64(v: serde_json::Value, key: Seq<char>) -> Option<u64> {
    match field_of(v, key) {
        Option::Some(f) => u64_of(f),
        Option::None => Option::None,
    }
}

/// The text behind a key of an entry: the key looked up, then read as a
/// JSON string.
pub open spec fn entry_string(v: serde_json::Value, key: Seq<char>) -> Option<Seq<char>> {
    match field_of(v, key) {
        Option::Some(f) => string_of(f),
        Option::None => Option::None,
    }
}

/// The record one watchlist entry stands for: present exactly when its
/// `pageid`, `old_revid` and `title` fields all have the expected types.
pub open spec fn entry_item(v: serde_json::Value) -> Option<ItemModel> {
    if entry_u64(v, "pageid"@) is Some && entry_u64(v, "old_revid"@) is Some && entry_string(
        v,
        "title"@,
    ) is Some {
        Option::Some(
            ItemModel {
                old_revid: entry_u64(v, "old_revid"@)->Some_0,
                pageid: entry_u64(v, "pageid"@)->Some_0,
                title: entry_string(v, "title"@)->Some_0,
            },
        )
    } else {
        Option::None
    }
}

/// The earliest entry at or after `i` that does not stand for a record,
/// or the array's length if every one does.
pub open spec fn first_malformed(arr: Seq<serde_json::Value>, i: int) -> int
    decreases arr.len() - i,
{
    if i < 0 || i >= arr.len() {
        arr.len() as int
    } else if entry_item(arr[i]) is None {
        i
    } else {
        first_malformed(arr, i + 1)
    }
}

/// The records of a well-shaped entry array, in order.
pub open spec fn items_model(arr: Seq<serde_json::Value>) -> Seq<ItemModel> {
    arr.map_values(|v: serde_json::Value| entry_item(v)->Some_0)
}

/// What the extraction comes to on a given response: the record list when
/// the watchlist array is present and well-shaped, else the exact error.
pub open spec fn extract_model(wiki: ConfigModel, v: serde_json::Value) -> Result<
    Seq<ItemModel>,
    ErrorModel,
> {
    match pointer_of(v, "/query/watchlist"@) {
        Option::None => Result::Err(
            ErrorModel::WatchlistFormatOuter { wiki: wiki.display_name, raw: text_of(v) },
        ),
        Option::Some(w) => match array_of(w) {
            Option::None => Result::Err(
                ErrorModel::WatchlistFormatInner {
                    wiki: wiki.display_name,
                    detail: "the watchlist field is not an array"@,
                },
            ),
            Option::Some(arr) => {
                if first_malformed(arr, 0) == arr.len() {
                    Result::Ok(items_model(arr))
                } else {
                    Result::Err(
                        ErrorModel::WatchlistFormatInner {
                            wiki: wiki.display_name,
                            detail: "watchlist entry "@ + decimal_digits(
                                first_malformed(arr, 0) as nat,
                            ) + " does not have the expected shape"@,
                        },
                    )
                }
            },
        },
    }
}

/// Reads one watchlist entry: its `pageid`, `old_revid` and `title`
/// fields, if this JSON value is an object carrying all three.
fn parse_item(v: &serde_json::Value) -> (r: Option<WatchlistItem>)
    ensures
        (r is Some <==> entry_item(*v) is Some),
        (r matches Some(it) ==> entry_item(*v) == Some(it@)),
{
    let pageid = match json_get(v, "pageid") {
        Some(field) => json_as_u64(field),
        None => None,
    };
    let old_revid = match json_get(v, "old_revid") {
        Some(field) => json_as_u64(field),
        None => None,
    };
    let title = match json_get(v, "title") {
        Some(field) => json_as_string(field),
        None => None,
    };
    proof {
        assert(pageid == entry_u64(*v, "pageid"@));
        assert(old_revid == entry_u64(*v, "old_revid"@));
        assert(title is Some <==> entry_string(*v, "title"@) is Some);
        assert(title matches Some(t) ==> entry_string(*v, "title"@) == Some(t@));
    }
    item_from_fields(pageid, old_revid, title)
}

/// The diagnostic for a watchlist entry of the wrong shape.
fn entry_detail(i: usize) -> (d: String)
    ensures
        d@ == "watchlist entry "@ + decimal_digits(i as nat) + " does not have the expected shape"@,
{
    let mut d = "watchlist entry ".to_owned();
    push_decimal(&mut d, i as u128);
    d.append(" does not have the expected shape");
    proof {
        assert(d@ =~= "watchlist entry "@ + decimal_digits(i as nat)
            + " does not have the expected shape"@);
    }
    d
}

/// Pulls the watchlist records out of one wiki's parsed API response,
/// exactly as `extract_model` says: the record array is expected at the
/// JSON path `query.watchlist`; a response without it fails with the
/// outer format error carrying the raw response text, a present field
/// that is not an array of well-shaped records with the inner one, and
/// both name the offending wiki for the diagnostic.
pub fn extract_watchlist(wiki: &WikiConfig, json: &serde_json::Value) -> (r: Result<
    Vec<WatchlistItem>,
    Error,
>)
    ensures
        (r matches Ok(items) ==> extract_model(wiki@, *json) == Result::<
            Seq<ItemModel>,
            ErrorModel,
        >::Ok(items.deep_view())),
        (r matches Err(e) ==> extract_model(wiki@, *json) == Result::<
            Seq<ItemModel>,
            ErrorModel,
        >::Err(e@)),
        (r matches Err(e) ==> e@ is WatchlistFormatOuter || e@ is WatchlistFormatInner),
{
    match json_pointer(json, "/query/watchlist") {
        None => {
            let e = Error::WatchlistFormatOuter {
                wiki: wiki.display_name.clone(),
                raw: json_to_text(json),
            };
            proof {
                assert(pointer_of(*json, "/query/watchlist"@) is None);
                assert(extract_model(wiki@, *json) == Result::<Seq<ItemModel>, ErrorModel>::Err(
                    e@,
                ));
            }
            Err(e)
        },
        Some(watchlist) => {
            proof {
                assert(pointer_of(*json, "/query/watchlist"@) == Some(*watchlist));
            }
            match json_as_array(watchlist) {
                None => {
                    let e = Error::WatchlistFormatInner {
                        wiki: wiki.display_name.clone(),
                        detail: "the watchlist field is not an array".to_owned(),
                    };
                    proof {
                        assert(array_of(*watchlist) is None);
                        assert(extract_model(wiki@, *json) == Result::<
                            Seq<ItemModel>,
                            ErrorModel,
                        >::Err(e@));
                    }
                    Err(e)
                },
                Some(entries) => {
                    let ghost arr = entries@;
                    proof {
                        assert(array_of(*watchlist) == Some(arr));
                    }
                    let mut items: Vec<WatchlistItem> = Vec::new();
                    let n = entries.len();
                    let mut i: usize = 0;
                    proof {
                        assert(items.deep_view() =~= items_model(arr).take(0));
                    }
                    while i < n
                        invariant
                            i <= n,
                            n == entries@.len(),
                            arr == entries@,
                            pointer_of(*json, "/query/watchlist"@) == Some(*watchlist),
                            array_of(*watchlist) == Some(arr),
                            first_malformed(arr, 0) == first_malformed(arr, i as int),
                            items.deep_view() == items_model(arr).take(i as int),
                        decreases n - i,
                    {
                        match parse_item(&entries[i]) {
                            Some(it) => {
                                let ghost gi = it@;
                                let ghost dv0 = items.deep_view();
                                proof {
                                    assert(entry_item(arr[i as int]) == Some(gi));
                                    assert(first_malformed(arr, i as int) == first_malformed(
                                        arr,
                                        i as int + 1,
                                    ));
                                }
                                items.push(it);
                                proof {
                                    assert(items.deep_view() =~= dv0.push(gi));
                                    assert(items_model(arr)[i as int] == gi);
                                    assert(dv0.push(gi) =~= items_model(arr).take(i as int + 1));
                                }
                            },
                            None => {
                                let detail = entry_detail(i);
                                let e = Error::WatchlistFormatInner {
                                    wiki: wiki.display_name.clone(),
                                    detail,
                                };
                                proof {
                                    assert(entry_item(arr[i as int]) is None);
                                    assert(first_malformed(arr, i as int) == i as int);
                                    assert(extract_model(wiki@, *json) == Result::<
                                        Seq<ItemModel>,
                                        ErrorModel,
                                    >::Err(e@));
                                }
                                return Err(e);
                            },
                        }
                        i += 1;
                    }
                    proof {
                        assert(first_malformed(arr, n as int) == n as int);
                        assert(items_model(arr).take(n as int) =~= items_model(arr));
                        assert(extract_model(wiki@, *json) == Result::<
                            Seq<ItemModel>,
                            ErrorModel,
                        >::Ok(items.deep_view()));
                    }
                    Ok(items)
                },
            }
        },
    }
}

} // verus!
