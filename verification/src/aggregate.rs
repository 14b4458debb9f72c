//! Merging per-wiki fetch outcomes into one ordered result.
//!
//! Fetches may complete in any order, so the merge takes outcomes tagged
//! with the position of their wiki in the configuration list and reassembles
//! them in configuration order. One failed wiki aborts the whole merge
//! (fail-fast): the error of the earliest configured wiki that failed is
//! returned, and no partial result.

use vstd::prelude::*;

use crate::config::ConfigModel;
use crate::config::WikiConfig;
use crate::error::Error;
use crate::error::ErrorModel;
use crate::item::ItemModel;
use crate::item::WatchlistItem;
use crate::reduce::lists_entries_of;
use crate::reduce::reduce;
use crate::reduce::reduce_map;
use crate::reduce::sorted_by_pageid;
use crate::reduce::ReducedWatchlist;
use crate::watchlist::extract_model;
use crate::watchlist::extract_watchlist;

verus! {

/// What fetching one wiki's watchlist came to: its raw records, or the
/// error that aborts the aggregation.
pub enum FetchOutcome {
    Items(Vec<WatchlistItem>),
    Failed(Error),
}

/// Mathematical model of a `FetchOutcome`.
pub ghost enum OutcomeModel {
    Items(Seq<ItemModel>),
    Failed(ErrorModel),
}

impl View for FetchOutcome {
    type V = OutcomeModel;

    open spec fn view(&self) -> OutcomeModel {
        match self {
            FetchOutcome::Items(items) => OutcomeModel::Items(items.deep_view()),
            FetchOutcome::Failed(e) => OutcomeModel::Failed(e@),
        }
    }
}

/// One reduced watchlist per configured wiki, in configuration order.
#[derive(Debug)]
pub struct AggregatedResult {
    pub wikis: Vec<(WikiConfig, ReducedWatchlist)>,
}

impl View for AggregatedResult {
    type V = Seq<(ConfigModel, Seq<ItemModel>)>;

    open spec fn view(&self) -> Seq<(ConfigModel, Seq<ItemModel>)> {
        self.wikis@.map_values(|pr: (WikiConfig, ReducedWatchlist)| (pr.0@, pr.1@))
    }
}

/// Model of a completion-ordered outcome list: each outcome tagged with the
/// position of its wiki in the configuration list.
pub open spec fn completion_model(f: Seq<(usize, FetchOutcome)>) -> Seq<(int, OutcomeModel)> {
    f.map_values(|pr: (usize, FetchOutcome)| (pr.0 as int, pr.1@))
}

/// No two outcomes are tagged with the same wiki position.
pub open spec fn distinct_tags(f: Seq<(int, OutcomeModel)>) -> bool {
    forall|j1: int, j2: int| 0 <= j1 < j2 < f.len() ==> (#[trigger] f[j1]).0 != (#[trigger] f[j2]).0
}

/// Some outcome is tagged with wiki position `k`.
pub open spec fn has_tag(f: Seq<(int, OutcomeModel)>, k: int) -> bool {
    exists|j: int| 0 <= j < f.len() && (#[trigger] f[j]).0 == k
}

/// Every wiki position below `n` is tagged somewhere.
pub open spec fn covers_all(f: Seq<(int, OutcomeModel)>, n: int) -> bool {
    forall|k: int| 0 <= k < n ==> #[trigger] has_tag(f, k)
}

/// The outcome tagged with wiki position `k`.
pub open spec fn outcome_for(f: Seq<(int, OutcomeModel)>, k: int) -> OutcomeModel {
    f[choose|j: int| 0 <= j < f.len() && (#[trigger] f[j]).0 == k].1
}

/// The earliest wiki position at or after `k` whose outcome failed, or `n`
/// if none did.
pub open spec fn first_failed(f: Seq<(int, OutcomeModel)>, n: int, k: int) -> int
    decreases n - k,
{
    if k < 0 || k >= n {
        n
    } else if outcome_for(f, k) is Failed {
        k
    } else {
        first_failed(f, n, k + 1)
    }
}

/// Merges tagged outcomes in configuration order. On success the result
/// pairs each wiki, in input order, with the reduction of its records; the
/// first failure in configuration order aborts the merge with that error.
pub fn aggregate(configs: &Vec<WikiConfig>, fetched: &Vec<(usize, FetchOutcome)>) -> (r: Result<
    AggregatedResult,
    Error,
>)
    requires
        distinct_tags(completion_model(fetched@)),
        covers_all(completion_model(fetched@), configs@.len() as int),
    ensures
        ({
            let f = completion_model(fetched@);
            let n = configs@.len() as int;
            let ff = first_failed(f, n, 0);
            match r {
                Ok(agg) => {
                    &&& ff == n
                    &&& agg@.len() == n
                    &&& forall|k: int|
                        0 <= k < n ==> (#[trigger] agg@[k]).0 == configs.deep_view()[k]
                    &&& forall|k: int| 0 <= k < n ==> (#[trigger] outcome_for(f, k)) is Items
                    &&& forall|k: int|
                        0 <= k < n ==> lists_entries_of(
                            (#[trigger] agg@[k]).1,
                            reduce_map(outcome_for(f, k)->Items_0),
                        )
                },
                Err(e) => {
                    &&& 0 <= ff < n
                    &&& outcome_for(f, ff) is Failed
                    &&& e@ == outcome_for(f, ff)->Failed_0
                },
            }
        }),
{
    let ghost f = completion_model(fetched@);
    let ghost n = configs@.len() as int;
    let flen: usize = fetched.len();
    let mut out: Vec<(WikiConfig, ReducedWatchlist)> = Vec::new();
    let mut k: usize = 0;
    while k < configs.len()
        invariant
            k <= configs@.len(),
            f == completion_model(fetched@),
            n == configs@.len() as int,
            fetched@.len() == flen as int,
            fetched@.len() == f.len(),
            distinct_tags(f),
            covers_all(f, n),
            first_failed(f, n, 0) == first_failed(f, n, k as int),
            out@.len() == k,
            forall|q: int| 0 <= q < k ==> (#[trigger] out@[q]).0@ == configs.deep_view()[q],
            forall|q: int| 0 <= q < k ==> (#[trigger] outcome_for(f, q)) is Items,
            forall|q: int|
                0 <= q < k ==> lists_entries_of(
                    (#[trigger] out@[q]).1@,
                    reduce_map(outcome_for(f, q)->Items_0),
                ),
        decreases configs@.len() - k,
    {
        proof {
            assert(has_tag(f, k as int));
        }
        let ghost jw = choose|j0: int| 0 <= j0 < f.len() && (#[trigger] f[j0]).0 == k as int;
        let mut j: usize = 0;
        while !(fetched[j].0 == k)
            invariant
                0 <= j <= jw < fetched@.len(),
                fetched@.len() == flen as int,
                f[jw].0 == k as int,
                f == completion_model(fetched@),
                fetched@.len() == f.len(),
            decreases jw - j,
        {
            proof {
                assert(f[j as int].0 == fetched@[j as int].0 as int);
                assert(j as int != jw);
            }
            j += 1;
        }
        proof {
            assert(f[j as int].0 == fetched@[j as int].0 as int);
            assert(f[j as int].0 == k as int);
            let j0 = choose|j0: int| 0 <= j0 < f.len() && (#[trigger] f[j0]).0 == k as int;
            assert(f[j0].0 == k as int);
            if j0 != j as int {
                assert((f[j0]).0 != (f[j as int]).0);
            }
            assert(outcome_for(f, k as int) == f[j as int].1);
            assert(f[j as int].1 == fetched@[j as int].1@);
        }
        let ghost out0 = out@;
        match &fetched[j].1 {
            FetchOutcome::Items(items) => {
                let reduced = reduce(items);
                let cfg = configs[k].duplicate();
                let ghost gpair = (cfg, reduced);
                out.push((cfg, reduced));
                proof {
                    assert(fetched@[j as int].1@ == OutcomeModel::Items(items.deep_view()));
                    assert(first_failed(f, n, k as int) == first_failed(f, n, k as int + 1));
                    assert(outcome_for(f, k as int) == OutcomeModel::Items(items.deep_view()));
                    assert(out@ == out0.push(gpair));
                    assert forall|q: int| 0 <= q < k as int + 1 implies (#[trigger] out@[q]).0@
                        == configs.deep_view()[q] by {
                        if q < k as int {
                            assert(out@[q] == out0[q]);
                        } else {
                            assert(out@[q] == gpair);
                        }
                    }
                    assert forall|q: int| 0 <= q < k as int + 1 implies lists_entries_of(
                        (#[trigger] out@[q]).1@,
                        reduce_map(outcome_for(f, q)->Items_0),
                    ) by {
                        if q < k as int {
                            assert(out@[q] == out0[q]);
                        } else {
                            assert(out@[q] == gpair);
                            assert(out@[q].1@ == reduced@);
                        }
                    }
                }
            },
            FetchOutcome::Failed(e) => {
                proof {
                    assert(outcome_for(f, k as int) is Failed);
                    assert(first_failed(f, n, k as int) == k as int);
                }
                return Err(e.duplicate());
            },
        }
        k += 1;
    }
    proof {
        assert(first_failed(f, n, n) == n);
    }
    let agg = AggregatedResult { wikis: out };
    proof {
        assert(agg@.len() == n);
        assert forall|q: int| 0 <= q < n implies (#[trigger] agg@[q]).0
            == configs.deep_view()[q] by {
            assert(agg@[q] == (out@[q].0@, out@[q].1@));
        }
        assert forall|q: int| 0 <= q < n implies lists_entries_of(
            (#[trigger] agg@[q]).1,
            reduce_map(outcome_for(f, q)->Items_0),
        ) by {
            assert(agg@[q] == (out@[q].0@, out@[q].1@));
            assert(lists_entries_of(out@[q].1@, reduce_map(outcome_for(f, q)->Items_0)));
        }
    }
    Ok(agg)
}

/// One wiki's fetch as the host application hands it over: either a
/// transport failure's description, or the parsed JSON response.
pub enum FetchResponse {
    Transport(String),
    Json(serde_json::Value),
}

/// The error kinds the fetch pipeline itself can produce.
pub open spec fn fetch_error_kind(e: ErrorModel) -> bool {
    ||| e is Transport
    ||| e is WatchlistFormatOuter
    ||| e is WatchlistFormatInner
}

/// Some response is tagged with wiki position `k`.
pub open spec fn response_has_tag(rs: Seq<(usize, FetchResponse)>, k: int) -> bool {
    exists|j: int| 0 <= j < rs.len() && (#[trigger] rs[j]).0 == k
}

/// What one wiki's response comes to: its records as the extraction
/// determines them, the transport failure, or the extraction's error.
pub open spec fn response_outcome(c: ConfigModel, resp: FetchResponse) -> OutcomeModel {
    match resp {
        FetchResponse::Transport(d) => OutcomeModel::Failed(ErrorModel::Transport { detail: d@ }),
        FetchResponse::Json(v) => match extract_model(c, v) {
            Result::Ok(items) => OutcomeModel::Items(items),
            Result::Err(em) => OutcomeModel::Failed(em),
        },
    }
}

/// Model of a completion-ordered response list: each response tagged with
/// its wiki position, carrying the outcome the extraction determines.
pub open spec fn responses_model(rs: Seq<(usize, FetchResponse)>, cs: Seq<ConfigModel>) -> Seq<
    (int, OutcomeModel),
> {
    rs.map_values(
        |pr: (usize, FetchResponse)| (pr.0 as int, response_outcome(cs[pr.0 as int], pr.1)),
    )
}

/// The whole aggregation pipeline on completion-ordered responses, exactly
/// as `responses_model` says: per wiki, the records are extracted from the
/// JSON response and reduced, and the results are merged in configuration
/// order, fail-fast. On success the output pairs the wikis, in input
/// order, with the reduction of their extracted records; on failure the
/// error is the earliest configured wiki's transport or extraction error.
pub fn aggregate_responses(configs: &Vec<WikiConfig>, responses: &Vec<(usize, FetchResponse)>) -> (r:
    Result<AggregatedResult, Error>)
    requires
        forall|j1: int, j2: int|
            0 <= j1 < j2 < responses@.len() ==> (#[trigger] responses@[j1]).0
                != (#[trigger] responses@[j2]).0,
        forall|j: int| 0 <= j < responses@.len() ==> (#[trigger] responses@[j]).0 < configs@.len(),
        forall|k: int| 0 <= k < configs@.len() ==> #[trigger] response_has_tag(responses@, k),
    ensures
        ({
            let f = responses_model(responses@, configs.deep_view());
            let n = configs@.len() as int;
            let ff = first_failed(f, n, 0);
            match r {
                Ok(agg) => {
                    &&& ff == n
                    &&& agg@.len() == n
                    &&& forall|k: int|
                        0 <= k < n ==> (#[trigger] agg@[k]).0 == configs.deep_view()[k]
                    &&& forall|k: int| 0 <= k < n ==> (#[trigger] outcome_for(f, k)) is Items
                    &&& forall|k: int|
                        0 <= k < n ==> lists_entries_of(
                            (#[trigger] agg@[k]).1,
                            reduce_map(outcome_for(f, k)->Items_0),
                        )
                    &&& forall|k: int| 0 <= k < n ==> sorted_by_pageid((#[trigger] agg@[k]).1)
                },
                Err(e) => {
                    &&& 0 <= ff < n
                    &&& outcome_for(f, ff) is Failed
                    &&& e@ == outcome_for(f, ff)->Failed_0
                    &&& fetch_error_kind(e@)
                },
            }
        }),
{
    let mut outcomes: Vec<(usize, FetchOutcome)> = Vec::new();
    let rn = responses.len();
    let mut j: usize = 0;
    while j < rn
        invariant
            j <= rn,
            rn == responses@.len(),
            forall|j2: int| 0 <= j2 < responses@.len() ==> (#[trigger] responses@[j2]).0
                < configs@.len(),
            outcomes@.len() == j,
            forall|q: int| 0 <= q < j ==> (#[trigger] outcomes@[q]).0 == responses@[q].0,
            forall|q: int|
                0 <= q < j ==> (#[trigger] outcomes@[q]).1@ == response_outcome(
                    configs.deep_view()[responses@[q].0 as int],
                    responses@[q].1,
                ),
            forall|q: int|
                0 <= q < j ==> ((#[trigger] outcomes@[q]).1@ is Failed ==> fetch_error_kind(
                    outcomes@[q].1@->Failed_0,
                )),
        decreases rn - j,
    {
        let idx = responses[j].0;
        let ghost c = configs.deep_view()[idx as int];
        let outcome = match &responses[j].1 {
            FetchResponse::Transport(detail) => {
                let o = FetchOutcome::Failed(Error::Transport { detail: detail.clone() });
                proof {
                    assert(responses@[j as int].1 == FetchResponse::Transport(*detail));
                    assert(o@ == response_outcome(c, responses@[j as int].1));
                }
                o
            },
            FetchResponse::Json(v) => {
                proof {
                    assert(responses@[j as int].1 == FetchResponse::Json(*v));
                    assert(c == configs@[idx as int]@);
                }
                match extract_watchlist(&configs[idx], v) {
                    Ok(items) => {
                        let o = FetchOutcome::Items(items);
                        proof {
                            assert(o@ == response_outcome(c, responses@[j as int].1));
                        }
                        o
                    },
                    Err(e) => {
                        let o = FetchOutcome::Failed(e);
                        proof {
                            assert(o@ == response_outcome(c, responses@[j as int].1));
                        }
                        o
                    },
                }
            },
        };
        outcomes.push((idx, outcome));
        j += 1;
    }
    let ghost cs = configs.deep_view();
    let ghost f = responses_model(responses@, cs);
    let ghost n = configs@.len() as int;
    proof {
        assert(completion_model(outcomes@) =~= f) by {
            assert forall|q: int| 0 <= q < rn as int implies completion_model(outcomes@)[q] == f[q] by {
                assert((#[trigger] outcomes@[q]).0 == responses@[q].0);
                assert(outcomes@[q].1@ == response_outcome(cs[responses@[q].0 as int], responses@[q].1));
            }
        }
        assert(f.len() == outcomes@.len());
        assert(forall|q: int| 0 <= q < f.len() ==> (#[trigger] f[q]).0 == outcomes@[q].0 as int);
        assert(forall|q: int| 0 <= q < f.len() ==> (#[trigger] f[q]).1 == outcomes@[q].1@);
        assert(distinct_tags(f)) by {
            assert forall|j1: int, j2: int| 0 <= j1 < j2 < f.len() implies (#[trigger] f[j1]).0
                != (#[trigger] f[j2]).0 by {
                assert(responses@[j1].0 != responses@[j2].0);
            }
        }
        assert(covers_all(f, n)) by {
            assert forall|k: int| 0 <= k < n implies #[trigger] has_tag(f, k) by {
                assert(response_has_tag(responses@, k));
                let j0 = choose|j0: int|
                    0 <= j0 < responses@.len() && (#[trigger] responses@[j0]).0 == k;
                assert((f[j0]).0 == k);
            }
        }
    }
    match aggregate(configs, &outcomes) {
        Ok(agg) => {
            proof {
                assert forall|k: int| 0 <= k < n implies sorted_by_pageid(
                    (#[trigger] agg@[k]).1,
                ) by {
                    assert(lists_entries_of(agg@[k].1, reduce_map(outcome_for(f, k)->Items_0)));
                }
            }
            Ok(agg)
        },
        Err(e) => {
            proof {
                let ff = first_failed(f, n, 0);
                assert(has_tag(f, ff));
                let jc = choose|j0: int| 0 <= j0 < f.len() && (#[trigger] f[j0]).0 == ff;
                assert(f[jc].0 == ff);
                assert(outcome_for(f, ff) == f[jc].1);
                assert(f[jc].1 == outcomes@[jc].1@);
                assert(fetch_error_kind(e@));
            }
            Err(e)
        },
    }
}

/// The wiki order of the output never depends on completion order: two
/// completion orders that carry the same tagged outcomes assign every wiki
/// position the same outcome, so the aggregation they pin down is the same.
pub proof fn lemma_outcome_order_irrelevant(
    f1: Seq<(int, OutcomeModel)>,
    f2: Seq<(int, OutcomeModel)>,
    k: int,
)
    requires
        f1.to_multiset() == f2.to_multiset(),
        distinct_tags(f1),
        distinct_tags(f2),
        has_tag(f1, k),
    ensures
        has_tag(f2, k),
        outcome_for(f1, k) == outcome_for(f2, k),
{
    broadcast use vstd::seq_lib::group_to_multiset_ensures;

    assert forall|x: (int, OutcomeModel)| f1.contains(x) implies f2.contains(x) by {
        assert(f1.to_multiset().count(x) > 0);
        assert(f2.to_multiset().count(x) > 0);
    }
    let j1 = choose|j: int| 0 <= j < f1.len() && (#[trigger] f1[j]).0 == k;
    assert(f1.contains(f1[j1]));
    assert(f2.contains(f1[j1]));
    let i1 = choose|i: int| 0 <= i < f2.len() && f2[i] == f1[j1];
    assert(f2[i1].0 == k);
    let jc2 = choose|j: int| 0 <= j < f2.len() && (#[trigger] f2[j]).0 == k;
    assert(jc2 == i1) by {
        if jc2 != i1 {
            assert(f2[jc2].0 != f2[i1].0);
        }
    }
}

/// Fail-fast is order-independent too: the earliest failing wiki position
/// is the same for any two completion orders of the same tagged outcomes.
pub proof fn lemma_first_failed_order_irrelevant(
    f1: Seq<(int, OutcomeModel)>,
    f2: Seq<(int, OutcomeModel)>,
    n: int,
    k: int,
)
    requires
        f1.to_multiset() == f2.to_multiset(),
        distinct_tags(f1),
        distinct_tags(f2),
        covers_all(f1, n),
    ensures
        first_failed(f1, n, k) == first_failed(f2, n, k),
    decreases n - k,
{
    if 0 <= k < n {
        lemma_outcome_order_irrelevant(f1, f2, k);
        if !(outcome_for(f1, k) is Failed) {
            lemma_first_failed_order_irrelevant(f1, f2, n, k + 1);
        }
    }
}

} // verus!
