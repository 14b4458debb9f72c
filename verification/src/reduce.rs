//! Collapsing raw records to the oldest unread revision per page.

use vstd::prelude::*;

use crate::item::ItemModel;
use crate::item::WatchlistItem;

verus! {

/// The reduction of a raw record sequence: scanning left to right, a record
/// is stored for its page if none is stored yet, and an already stored
/// record is replaced only by one with a strictly smaller old revision id.
pub open spec fn reduce_map(s: Seq<ItemModel>) -> Map<u64, ItemModel>
    decreases s.len(),
{
    if s.len() == 0 {
        Map::empty()
    } else {
        let m = reduce_map(s.drop_last());
        let it = s.last();
        if m.dom().contains(it.pageid) && m[it.pageid].old_revid <= it.old_revid {
            m
        } else {
            m.insert(it.pageid, it)
        }
    }
}

/// Strictly ascending page identifiers.
pub open spec fn sorted_by_pageid(s: Seq<ItemModel>) -> bool {
    forall|i: int, j: int| 0 <= i < j < s.len() ==> s[i].pageid < s[j].pageid
}

/// `r` lists exactly the entries of `m`, in ascending page-id order.
pub open spec fn lists_entries_of(r: Seq<ItemModel>, m: Map<u64, ItemModel>) -> bool {
    &&& sorted_by_pageid(r)
    &&& forall|i: int|
        0 <= i < r.len() ==> m.dom().contains(#[trigger] r[i].pageid) && m[r[i].pageid] == r[i]
    &&& forall|p: u64|
        #[trigger] m.dom().contains(p) ==> exists|i: int| 0 <= i < r.len() && r[i].pageid == p
}

/// One record per page, the oldest unread revision of each, in ascending
/// page-id order so traversal for rendering is reproducible.
#[derive(Debug)]
pub struct ReducedWatchlist {
    pub items: Vec<WatchlistItem>,
}

impl View for ReducedWatchlist {
    type V = Seq<ItemModel>;

    open spec fn view(&self) -> Seq<ItemModel> {
        self.items.deep_view()
    }
}

impl ReducedWatchlist {
    /// The ordering invariant every constructed value satisfies.
    pub open spec fn wf(&self) -> bool {
        sorted_by_pageid(self@)
    }

    /// Number of pages with unread changes.
    pub fn len(&self) -> (n: usize)
        ensures
            n == self@.len(),
    {
        self.items.len()
    }
}

/// Collapses raw records to one per page: the record whose old revision id
/// is smallest, scanning in received order and replacing only on a strictly
/// smaller id. The result is ordered by ascending page id.
pub fn reduce(raw: &Vec<WatchlistItem>) -> (r: ReducedWatchlist)
    ensures
        r.wf(),
        lists_entries_of(r@, reduce_map(raw.deep_view())),
        raw.deep_view().len() == 0 ==> r@ == Seq::<ItemModel>::empty(),
{
    let ghost s = raw.deep_view();
    let mut out: Vec<WatchlistItem> = Vec::new();
    proof {
        assert(s.take(0) =~= Seq::<ItemModel>::empty());
        assert(out.deep_view() =~= Seq::<ItemModel>::empty());
    }
    let mut k: usize = 0;
    while k < raw.len()
        invariant
            k <= raw.len(),
            s == raw.deep_view(),
            s.len() == raw.len(),
            lists_entries_of(out.deep_view(), reduce_map(s.take(k as int))),
        decreases raw.len() - k,
    {
        let ghost prev = out.deep_view();
        let ghost m = reduce_map(s.take(k as int));
        let it = &raw[k];
        proof {
            assert(it@ == s[k as int]);
        }
        let mut pos: usize = 0;
        while pos < out.len() && out[pos].pageid < it.pageid
            invariant
                pos <= out.len(),
                out.deep_view() == prev,
                forall|q: int| 0 <= q < pos ==> prev[q].pageid < it@.pageid,
            decreases out.len() - pos,
        {
            pos += 1;
        }
        if pos < out.len() && out[pos].pageid == it.pageid {
            proof {
                assert(prev[pos as int].pageid == it@.pageid);
                assert(m.dom().contains(it@.pageid) && m[it@.pageid] == prev[pos as int]);
            }
            if out[pos].old_revid > it.old_revid {
                out.set(pos, it.duplicate());
                proof {
                    let m2 = m.insert(it@.pageid, it@);
                    assert(out.deep_view() =~= prev.update(pos as int, it@));
                    lemma_step_replace(prev, m, pos as int, it@);
                    assert(lists_entries_of(out.deep_view(), m2));
                    lemma_take_step(s, k as int);
                    assert(reduce_map(s.take(k as int + 1)) == m2);
                }
            } else {
                proof {
                    lemma_take_step(s, k as int);
                    assert(reduce_map(s.take(k as int + 1)) == m);
                }
            }
        } else {
            proof {
                // The page is not present yet: positions before `pos` are
                // strictly smaller, positions from `pos` on strictly larger.
                assert(forall|q: int|
                    pos <= q < prev.len() ==> it@.pageid < #[trigger] prev[q].pageid) by {
                    if pos < prev.len() {
                        assert(prev[pos as int].pageid > it@.pageid);
                        assert(forall|q: int|
                            pos < q < prev.len() ==> prev[pos as int].pageid < #[trigger] prev[q].pageid);
                    }
                }
                assert(!m.dom().contains(it@.pageid)) by {
                    if m.dom().contains(it@.pageid) {
                        let i0 = choose|i: int|
                            0 <= i < prev.len() && prev[i].pageid == it@.pageid;
                        assert(prev[i0].pageid == it@.pageid);
                    }
                }
            }
            out.insert(pos, it.duplicate());
            proof {
                let m2 = m.insert(it@.pageid, it@);
                assert(out.deep_view() =~= prev.insert(pos as int, it@));
                lemma_step_insert(prev, m, pos as int, it@);
                assert(lists_entries_of(out.deep_view(), m2));
                lemma_take_step(s, k as int);
                assert(reduce_map(s.take(k as int + 1)) == m2);
            }
        }
        k += 1;
    }
    proof {
        assert(s.take(s.len() as int) =~= s);
        if s.len() == 0 {
            if out.deep_view().len() > 0 {
                assert(reduce_map(s).dom().contains(out.deep_view()[0].pageid));
            }
            assert(out.deep_view() =~= Seq::<ItemModel>::empty());
        }
    }
    ReducedWatchlist { items: out }
}

/// What `reduce_map` stores for a page: some record of the input with that
/// page id, whose old revision id is minimal among them; and a page is
/// stored exactly when it occurs in the input.
pub proof fn lemma_reduce_map_entry(s: Seq<ItemModel>, p: u64)
    ensures
        reduce_map(s).dom().contains(p) <==> exists|j: int|
            0 <= j < s.len() && #[trigger] s[j].pageid == p,
        reduce_map(s).dom().contains(p) ==> exists|j: int|
            0 <= j < s.len() && #[trigger] s[j].pageid == p && s[j] == reduce_map(s)[p],
        reduce_map(s).dom().contains(p) ==> forall|j: int|
            0 <= j < s.len() && #[trigger] s[j].pageid == p ==> reduce_map(s)[p].old_revid
                <= s[j].old_revid,
    decreases s.len(),
{
    if s.len() > 0 {
        let t = s.drop_last();
        let it = s.last();
        lemma_reduce_map_entry(t, p);
        assert(forall|j: int| 0 <= j < t.len() ==> t[j] == s[j]);
        if p == it.pageid {
            assert(s[s.len() - 1].pageid == p);
        } else {
            assert(reduce_map(s).dom().contains(p) ==> reduce_map(t).dom().contains(p));
            if exists|j: int| 0 <= j < s.len() && #[trigger] s[j].pageid == p {
                let j0 = choose|j: int| 0 <= j < s.len() && #[trigger] s[j].pageid == p;
                assert(t[j0].pageid == p);
            }
        }
    }
}

/// Oldest unread revision wins: if one record's old revision id is strictly
/// below every other record of the same page, the reducer keeps exactly
/// that record, wherever it stands in the input.
pub proof fn lemma_reduce_keeps_minimum(s: Seq<ItemModel>, i: int)
    requires
        0 <= i < s.len(),
        forall|j: int|
            0 <= j < s.len() && j != i && #[trigger] s[j].pageid == s[i].pageid
                ==> s[i].old_revid < s[j].old_revid,
    ensures
        reduce_map(s).dom().contains(s[i].pageid),
        reduce_map(s)[s[i].pageid] == s[i],
{
    let p = s[i].pageid;
    lemma_reduce_map_entry(s, p);
    assert(s[i].pageid == p);
    let j0 = choose|j: int| 0 <= j < s.len() && #[trigger] s[j].pageid == p && s[j] == reduce_map(s)[p];
    assert(reduce_map(s)[p].old_revid <= s[i].old_revid);
    if j0 != i {
        assert(s[i].old_revid < s[j0].old_revid);
        assert(false);
    }
}

/// Permutation invariance: for a page whose records carry pairwise distinct
/// old revision ids, reducing any reordering of the same records keeps the
/// same entry for that page.
pub proof fn lemma_reduce_permutation_invariant(s1: Seq<ItemModel>, s2: Seq<ItemModel>, p: u64)
    requires
        s1.to_multiset() == s2.to_multiset(),
        exists|j: int| 0 <= j < s1.len() && #[trigger] s1[j].pageid == p,
        forall|j: int, k: int|
            0 <= j < s1.len() && 0 <= k < s1.len() && j != k && s1[j].pageid == p
                && s1[k].pageid == p ==> s1[j].old_revid != s1[k].old_revid,
    ensures
        reduce_map(s1).dom().contains(p),
        reduce_map(s2).dom().contains(p),
        reduce_map(s1)[p] == reduce_map(s2)[p],
{
    broadcast use vstd::seq_lib::group_to_multiset_ensures;

    lemma_reduce_map_entry(s1, p);
    lemma_reduce_map_entry(s2, p);
    assert forall|x: ItemModel| s1.contains(x) implies s2.contains(x) by {
        assert(s1.to_multiset().count(x) > 0);
        assert(s2.to_multiset().count(x) > 0);
    }
    assert forall|x: ItemModel| s2.contains(x) implies s1.contains(x) by {
        assert(s2.to_multiset().count(x) > 0);
        assert(s1.to_multiset().count(x) > 0);
    }
    let j = choose|j: int| 0 <= j < s1.len() && #[trigger] s1[j].pageid == p;
    assert(s1.contains(s1[j]));
    assert(s2.contains(s1[j]));
    assert(exists|i: int| 0 <= i < s2.len() && #[trigger] s2[i].pageid == p) by {
        let i0 = choose|i: int| 0 <= i < s2.len() && s2[i] == s1[j];
        assert(s2[i0].pageid == p);
    }
    let e1 = reduce_map(s1)[p];
    let e2 = reduce_map(s2)[p];
    let j1 = choose|i: int| 0 <= i < s1.len() && #[trigger] s1[i].pageid == p && s1[i] == e1;
    let j2 = choose|i: int| 0 <= i < s2.len() && #[trigger] s2[i].pageid == p && s2[i] == e2;
    // Each stored record also occurs in the other sequence, so each is
    // bounded by the other's minimality.
    assert(s2.contains(e2));
    assert(s1.contains(e2));
    let j2p = choose|i: int| 0 <= i < s1.len() && s1[i] == e2;
    assert(e1.old_revid <= s1[j2p].old_revid);
    assert(s1.contains(e1));
    assert(s2.contains(e1));
    let j1p = choose|i: int| 0 <= i < s2.len() && s2[i] == e1;
    assert(e2.old_revid <= s2[j1p].old_revid);
    assert(e1.old_revid == e2.old_revid);
    if j1 != j2p {
        assert(s1[j1].old_revid != s1[j2p].old_revid);
        assert(false);
    }
}

/// Unfolds one step of `reduce_map` along a growing prefix.
proof fn lemma_take_step(s: Seq<ItemModel>, k: int)
    requires
        0 <= k < s.len(),
    ensures
        reduce_map(s.take(k + 1)) == (if reduce_map(s.take(k)).dom().contains(s[k].pageid)
            && reduce_map(s.take(k))[s[k].pageid].old_revid <= s[k].old_revid {
            reduce_map(s.take(k))
        } else {
            reduce_map(s.take(k)).insert(s[k].pageid, s[k])
        }),
{
    assert(s.take(k + 1).drop_last() =~= s.take(k));
    assert(s.take(k + 1).last() == s[k]);
}

/// Replacing the stored record of an already listed page keeps the listing.
proof fn lemma_step_replace(r: Seq<ItemModel>, m: Map<u64, ItemModel>, pos: int, it: ItemModel)
    requires
        lists_entries_of(r, m),
        0 <= pos < r.len(),
        r[pos].pageid == it.pageid,
    ensures
        lists_entries_of(r.update(pos, it), m.insert(it.pageid, it)),
{
    let r2 = r.update(pos, it);
    let m2 = m.insert(it.pageid, it);
    assert(sorted_by_pageid(r2)) by {
        assert forall|i: int, j: int| 0 <= i < j < r2.len() implies r2[i].pageid
            < r2[j].pageid by {
            assert(r[i].pageid < r[j].pageid);
        }
    }
    assert(forall|i: int|
        0 <= i < r2.len() && i != pos ==> #[trigger] r2[i].pageid != it.pageid) by {
        assert(forall|i: int|
            0 <= i < r.len() && i != pos ==> #[trigger] r[i].pageid != r[pos].pageid);
    }
    assert(forall|p: u64|
        #[trigger] m2.dom().contains(p) ==> exists|i: int| 0 <= i < r2.len() && r2[i].pageid == p) by {
        assert(forall|p: u64|
            m.dom().contains(p) && p != it.pageid ==> exists|i: int|
                0 <= i < r.len() && #[trigger] r[i].pageid == p);
        assert(forall|i: int| 0 <= i < r.len() && i != pos ==> r2[i] == r[i]);
        assert(r2[pos].pageid == it.pageid);
    }
}

/// Inserting a record of a page not yet listed keeps the listing, provided
/// the insertion point respects the order.
proof fn lemma_step_insert(r: Seq<ItemModel>, m: Map<u64, ItemModel>, pos: int, it: ItemModel)
    requires
        lists_entries_of(r, m),
        0 <= pos <= r.len(),
        forall|q: int| 0 <= q < pos ==> #[trigger] r[q].pageid < it.pageid,
        forall|q: int| pos <= q < r.len() ==> it.pageid < #[trigger] r[q].pageid,
        !m.dom().contains(it.pageid),
    ensures
        lists_entries_of(r.insert(pos, it), m.insert(it.pageid, it)),
{
    let r2 = r.insert(pos, it);
    let m2 = m.insert(it.pageid, it);
    assert(forall|i: int| 0 <= i < pos ==> r2[i] == r[i]);
    assert(r2[pos] == it);
    assert(forall|i: int| pos < i < r2.len() ==> r2[i] == r[i - 1]);
    assert(sorted_by_pageid(r2));
    assert(forall|i: int|
        0 <= i < r2.len() ==> m2.dom().contains(#[trigger] r2[i].pageid)
            && m2[r2[i].pageid] == r2[i]) by {
        assert(forall|i: int|
            0 <= i < r.len() ==> m.dom().contains(#[trigger] r[i].pageid) && m[r[i].pageid] == r[i]);
    }
    assert(forall|p: u64|
        #[trigger] m2.dom().contains(p) ==> exists|i: int| 0 <= i < r2.len() && r2[i].pageid == p) by {
        assert forall|p: u64| #[trigger] m2.dom().contains(p) implies exists|i: int|
            0 <= i < r2.len() && r2[i].pageid == p by {
            if p == it.pageid {
                assert(r2[pos].pageid == p);
            } else {
                let i0 = choose|i: int| 0 <= i < r.len() && #[trigger] r[i].pageid == p;
                if i0 < pos {
                    assert(r2[i0].pageid == p);
                } else {
                    assert(r2[i0 + 1].pageid == p);
                }
            }
        }
    }
}

} // verus!
