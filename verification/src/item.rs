//! The raw unread-change record returned by a wiki.

use vstd::prelude::*;

verus! {

/// One unread change record: the page it belongs to, the revision id at the
/// start of the unread range, and the page title used as a menu label.
#[derive(Debug, PartialEq, Eq)]
pub struct WatchlistItem {
    /// Revision id immediately preceding the first unread change.
    pub old_revid: u64,
    /// Identifier of the page the change belongs to.
    pub pageid: u64,
    /// Page title, shown as the label of the menu entry.
    pub title: String,
}

/// Mathematical model of a `WatchlistItem`.
pub ghost struct ItemModel {
    pub old_revid: u64,
    pub pageid: u64,
    pub title: Seq<char>,
}

impl View for WatchlistItem {
    type V = ItemModel;

    open spec fn view(&self) -> ItemModel {
        ItemModel { old_revid: self.old_revid, pageid: self.pageid, title: self.title@ }
    }
}

impl DeepView for WatchlistItem {
    type V = ItemModel;

    open spec fn deep_view(&self) -> ItemModel {
        self.view()
    }
}

impl WatchlistItem {
    /// An owned copy with the same model.
    pub fn duplicate(&self) -> (r: WatchlistItem)
        ensures
            r@ == self@,
    {
        WatchlistItem {
            old_revid: self.old_revid,
            pageid: self.pageid,
            title: self.title.clone(),
        }
    }
}

} // verus!
