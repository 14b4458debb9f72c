//! The "open all" command: which wiki, and which diff links to launch.
//!
//! The command re-fetches and re-reduces the named wiki's watchlist, opens
//! one browser process per unread page, waits for all of them, and then
//! pauses for a fixed delay so the wiki can register the visits as read
//! before the host application refreshes the menu. The launching and the
//! waiting are the host application's business; this module decides which
//! wiki is meant and exactly which URLs are opened.

use vstd::prelude::*;

use crate::config::ConfigModel;
use crate::config::WikiConfig;
use crate::error::Error;
use crate::error::ErrorModel;
use crate::item::ItemModel;
use crate::reduce::ReducedWatchlist;
use crate::text::diff_url;
use crate::text::diff_url_spec;

verus! {

/// Seconds to pause after every launched browser process has exited,
/// before returning: the remote wiki needs the time to register the
/// visits as read, or the next menu refresh would still see them unread.
pub const POST_OPEN_DELAY_SECS: u64 = 2;

/// How many configured wikis carry this display name.
pub open spec fn match_count(cs: Seq<ConfigModel>, name: Seq<char>) -> int
    decreases cs.len(),
{
    if cs.len() == 0 {
        0
    } else {
        match_count(cs.drop_last(), name) + if cs.last().display_name == name {
            1int
        } else {
            0int
        }
    }
}

/// Step of `match_count` along a growing prefix.
proof fn lemma_match_count_take_step(cs: Seq<ConfigModel>, name: Seq<char>, k: int)
    requires
        0 <= k < cs.len(),
    ensures
        match_count(cs.take(k + 1), name) == match_count(cs.take(k), name) + if cs[k].display_name
            == name {
            1int
        } else {
            0int
        },
{
    assert(cs.take(k + 1).drop_last() =~= cs.take(k));
    assert(cs.take(k + 1).last() == cs[k]);
}

/// Looks the requested display name up among the configured wikis. There
/// must be exactly one wiki of that name: zero matches is the unknown-wiki
/// error, and so is an ambiguous name, since the name is the stable
/// external identifier of a wiki.
pub fn find_wiki(configs: &Vec<WikiConfig>, name: &String) -> (r: Result<usize, Error>)
    ensures
        (match r {
            Ok(i) => {
                &&& match_count(configs.deep_view(), name@) == 1
                &&& i < configs@.len()
                &&& configs.deep_view()[i as int].display_name == name@
            },
            Err(e) => {
                &&& match_count(configs.deep_view(), name@) != 1
                &&& e@ == (ErrorModel::UnknownWiki { name: name@ })
            },
        }),
{
    let ghost cs = configs.deep_view();
    let n = configs.len();
    let mut count: usize = 0;
    let mut found: usize = 0;
    let mut k: usize = 0;
    proof {
        assert(cs.take(0) =~= Seq::<ConfigModel>::empty());
    }
    while k < n
        invariant
            k <= n,
            n == configs@.len(),
            cs == configs.deep_view(),
            cs.len() == n as int,
            count <= k,
            count as int == match_count(cs.take(k as int), name@),
            count > 0 ==> found < k && cs[found as int].display_name == name@,
        decreases n - k,
    {
        proof {
            lemma_match_count_take_step(cs, name@, k as int);
            assert(cs[k as int] == configs@[k as int]@);
        }
        if configs[k].display_name == *name {
            if count == 0 {
                found = k;
            }
            count += 1;
        }
        k += 1;
    }
    proof {
        assert(cs.take(n as int) =~= cs);
    }
    if count == 1 {
        Ok(found)
    } else {
        Err(Error::UnknownWiki { name: name.clone() })
    }
}

/// The diff links of a reduced watchlist, one per unread page, in
/// watchlist order.
pub open spec fn urls_model(index_url: Seq<char>, items: Seq<ItemModel>) -> Seq<Seq<char>>
    decreases items.len(),
{
    if items.len() == 0 {
        Seq::empty()
    } else {
        urls_model(index_url, items.drop_last()).push(
            diff_url_spec(index_url, items.last().pageid, items.last().old_revid),
        )
    }
}

/// The URLs the command launches for one wiki: the first unread diff of
/// every page of its reduced watchlist.
pub fn open_all_urls(wiki: &WikiConfig, watchlist: &ReducedWatchlist) -> (urls: Vec<String>)
    ensures
        urls.deep_view() == urls_model(wiki@.index_url, watchlist@),
{
    let ghost items = watchlist@;
    let mut urls: Vec<String> = Vec::new();
    let n = watchlist.items.len();
    let mut i: usize = 0;
    proof {
        assert(items.take(0) =~= Seq::<ItemModel>::empty());
        assert(urls.deep_view() =~= urls_model(wiki@.index_url, items.take(0)));
    }
    while i < n
        invariant
            i <= n,
            n == watchlist.items@.len(),
            items == watchlist@,
            items.len() == n as int,
            urls.deep_view() == urls_model(wiki@.index_url, items.take(i as int)),
        decreases n - i,
    {
        let it = &watchlist.items[i];
        proof {
            assert(it@ == items[i as int]);
        }
        let url = diff_url(wiki.index_url.as_str(), it.pageid, it.old_revid);
        urls.push(url);
        proof {
            assert(items.take(i as int + 1).drop_last() =~= items.take(i as int));
            assert(items.take(i as int + 1).last() == items[i as int]);
            assert(urls.deep_view() =~= urls_model(wiki@.index_url, items.take(i as int + 1)));
        }
        i += 1;
    }
    proof {
        assert(items.take(n as int) =~= items);
    }
    urls
}

} // verus!
