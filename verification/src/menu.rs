//! Deriving the ordered menu description from an aggregated result.

use vstd::prelude::*;

use crate::aggregate::AggregatedResult;
use crate::config::ConfigModel;
use crate::error::Error;
use crate::error::ErrorModel;
use crate::item::ItemModel;
use crate::text::decimal_digits;
use crate::text::decimal_string;
use crate::text::diff_url;
use crate::text::diff_url_spec;

verus! {

/// One renderable menu entry. The host application turns these into its
/// own menu items: the header carries the total unread count (and gets the
/// status icon), the per-wiki label either invokes the "open all" command
/// for that wiki or degrades to a plain label when the host's executable
/// path is unknown, and each page entry links to its first unread diff.
#[derive(Debug, PartialEq, Eq)]
pub enum MenuEntry {
    Header { text: String },
    Separator,
    OpenAllLink { label: String, wiki: String },
    PlainLabel { text: String },
    PageLink { label: String, url: String },
}

/// Mathematical model of a `MenuEntry`.
pub ghost enum EntryModel {
    Header { text: Seq<char> },
    Separator,
    OpenAllLink { label: Seq<char>, wiki: Seq<char> },
    PlainLabel { text: Seq<char> },
    PageLink { label: Seq<char>, url: Seq<char> },
}

impl View for MenuEntry {
    type V = EntryModel;

    open spec fn view(&self) -> EntryModel {
        match self {
            MenuEntry::Header { text } => EntryModel::Header { text: text@ },
            MenuEntry::Separator => EntryModel::Separator,
            MenuEntry::OpenAllLink { label, wiki } => EntryModel::OpenAllLink {
                label: label@,
                wiki: wiki@,
            },
            MenuEntry::PlainLabel { text } => EntryModel::PlainLabel { text: text@ },
            MenuEntry::PageLink { label, url } => EntryModel::PageLink {
                label: label@,
                url: url@,
            },
        }
    }
}

impl DeepView for MenuEntry {
    type V = EntryModel;

    open spec fn deep_view(&self) -> EntryModel {
        self.view()
    }
}

/// Total unread count: the sum of the per-wiki reduced watchlist sizes.
pub open spec fn total_of(ws: Seq<(ConfigModel, Seq<ItemModel>)>) -> int
    decreases ws.len(),
{
    if ws.len() == 0 {
        0
    } else {
        total_of(ws.drop_last()) + ws.last().1.len()
    }
}

/// The page entries of one wiki, in watchlist order: each labelled with the
/// page title and linking to the first unread diff of the page.
pub open spec fn pages_model(index_url: Seq<char>, items: Seq<ItemModel>) -> Seq<EntryModel>
    decreases items.len(),
{
    if items.len() == 0 {
        Seq::empty()
    } else {
        pages_model(index_url, items.drop_last()).push(
            EntryModel::PageLink {
                label: items.last().title,
                url: diff_url_spec(index_url, items.last().pageid, items.last().old_revid),
            },
        )
    }
}

/// The clickable per-wiki label, degrading to a plain label when the host's
/// own executable path could not be determined.
pub open spec fn wiki_header_model(c: ConfigModel, exe_available: bool) -> EntryModel {
    if exe_available {
        EntryModel::OpenAllLink { label: c.display_name, wiki: c.display_name }
    } else {
        EntryModel::PlainLabel { text: c.display_name }
    }
}

/// The block a single wiki contributes: nothing when it has no unread
/// pages, else a separator, its label, and its page entries.
pub open spec fn wiki_block_model(
    w: (ConfigModel, Seq<ItemModel>),
    exe_available: bool,
) -> Seq<EntryModel> {
    if w.1.len() == 0 {
        Seq::empty()
    } else {
        seq![EntryModel::Separator, wiki_header_model(w.0, exe_available)] + pages_model(
            w.0.index_url,
            w.1,
        )
    }
}

/// The concatenated per-wiki blocks, in configuration order.
pub open spec fn blocks_model(
    ws: Seq<(ConfigModel, Seq<ItemModel>)>,
    exe_available: bool,
) -> Seq<EntryModel>
    decreases ws.len(),
{
    if ws.len() == 0 {
        Seq::empty()
    } else {
        blocks_model(ws.drop_last(), exe_available) + wiki_block_model(ws.last(), exe_available)
    }
}

/// The whole menu: empty when nothing is unread, else a header with the
/// total count followed by the per-wiki blocks.
pub open spec fn render_model(
    ws: Seq<(ConfigModel, Seq<ItemModel>)>,
    exe_available: bool,
) -> Seq<EntryModel> {
    if total_of(ws) == 0 {
        Seq::empty()
    } else {
        seq![EntryModel::Header { text: decimal_digits(total_of(ws) as nat) }] + blocks_model(
            ws,
            exe_available,
        )
    }
}

/// Step of `total_of` along a growing prefix.
proof fn lemma_total_of_take_step(ws: Seq<(ConfigModel, Seq<ItemModel>)>, k: int)
    requires
        0 <= k < ws.len(),
    ensures
        total_of(ws.take(k + 1)) == total_of(ws.take(k)) + ws[k].1.len(),
{
    assert(ws.take(k + 1).drop_last() =~= ws.take(k));
    assert(ws.take(k + 1).last() == ws[k]);
}

/// Computes the total unread count across all wikis. The count is carried
/// in 128 bits, which the per-wiki vector lengths cannot overflow.
pub fn total_count(agg: &AggregatedResult) -> (t: u128)
    ensures
        t == total_of(agg@),
{
    let n = agg.wikis.len();
    let mut t: u128 = 0;
    let mut k: usize = 0;
    proof {
        assert(agg@.take(0) =~= Seq::<(ConfigModel, Seq<ItemModel>)>::empty());
    }
    while k < n
        invariant
            k <= n,
            n == agg.wikis@.len(),
            agg@.len() == n as int,
            t == total_of(agg@.take(k as int)),
            t <= (k as int) * 0xffff_ffff_ffff_ffffu128,
        decreases n - k,
    {
        let a = agg.wikis[k].1.items.len();
        proof {
            lemma_total_of_take_step(agg@, k as int);
            assert(agg@[k as int] == (agg.wikis@[k as int].0@, agg.wikis@[k as int].1@));
            assert(agg@[k as int].1.len() == a as int);
            assert(a <= usize::MAX);
            assert(usize::MAX as int <= 0xffff_ffff_ffff_ffff);
            assert((k as int) * 0xffff_ffff_ffff_ffff + 0xffff_ffff_ffff_ffff == (k as int + 1)
                * 0xffff_ffff_ffff_ffff) by (nonlinear_arith);
            assert((k as int + 1) * 0xffff_ffff_ffff_ffff <= 0xffff_ffff_ffff_ffff
                * 0xffff_ffff_ffff_ffff) by (nonlinear_arith)
                requires
                    0 <= k as int + 1 <= 0xffff_ffff_ffff_ffff,
            ;
        }
        t = t + a as u128;
        k += 1;
    }
    proof {
        assert(agg@.take(n as int) =~= agg@);
    }
    t
}

/// Renders the aggregated watchlists as the ordered menu description.
pub fn render(agg: &AggregatedResult, exe_available: bool) -> (menu: Vec<MenuEntry>)
    ensures
        menu.deep_view() == render_model(agg@, exe_available),
{
    let total = total_count(agg);
    let mut menu: Vec<MenuEntry> = Vec::new();
    if total == 0 {
        proof {
            assert(menu.deep_view() =~= render_model(agg@, exe_available));
        }
        return menu;
    }
    let ghost hdr = seq![EntryModel::Header { text: decimal_digits(total_of(agg@) as nat) }];
    menu.push(MenuEntry::Header { text: decimal_string(total) });
    proof {
        assert(agg@.take(0) =~= Seq::<(ConfigModel, Seq<ItemModel>)>::empty());
        assert(menu.deep_view() =~= hdr + blocks_model(agg@.take(0), exe_available));
    }
    let n = agg.wikis.len();
    let mut k: usize = 0;
    while k < n
        invariant
            k <= n,
            n == agg.wikis@.len(),
            agg@.len() == n as int,
            menu.deep_view() == hdr + blocks_model(agg@.take(k as int), exe_available),
            hdr == seq![EntryModel::Header { text: decimal_digits(total_of(agg@) as nat) }],
        decreases n - k,
    {
        let ghost wm = agg@[k as int];
        proof {
            assert(wm == (agg.wikis@[k as int].0@, agg.wikis@[k as int].1@));
        }
        let w = &agg.wikis[k];
        let m = w.1.items.len();
        if m > 0 {
            let ghost base = menu.deep_view();
            menu.push(MenuEntry::Separator);
            if exe_available {
                menu.push(
                    MenuEntry::OpenAllLink {
                        label: w.0.display_name.clone(),
                        wiki: w.0.display_name.clone(),
                    },
                );
            } else {
                menu.push(MenuEntry::PlainLabel { text: w.0.display_name.clone() });
            }
            proof {
                assert(wm.1.take(0) =~= Seq::<ItemModel>::empty());
                assert(menu.deep_view() =~= base + seq![
                    EntryModel::Separator,
                    wiki_header_model(wm.0, exe_available),
                ] + pages_model(wm.0.index_url, wm.1.take(0)));
            }
            let mut i: usize = 0;
            while i < m
                invariant
                    i <= m,
                    m == wm.1.len(),
                    0 <= k < agg.wikis@.len(),
                    wm == (agg.wikis@[k as int].0@, agg.wikis@[k as int].1@),
                    w == &agg.wikis@[k as int],
                    menu.deep_view() == base + seq![
                        EntryModel::Separator,
                        wiki_header_model(wm.0, exe_available),
                    ] + pages_model(wm.0.index_url, wm.1.take(i as int)),
                decreases m - i,
            {
                let it = &w.1.items[i];
                proof {
                    assert(it@ == wm.1[i as int]);
                }
                let url = diff_url(w.0.index_url.as_str(), it.pageid, it.old_revid);
                let ghost mdv0 = menu.deep_view();
                let entry = MenuEntry::PageLink { label: it.title.clone(), url };
                let ghost em = entry@;
                menu.push(entry);
                proof {
                    assert(em == EntryModel::PageLink {
                        label: wm.1[i as int].title,
                        url: diff_url_spec(
                            wm.0.index_url,
                            wm.1[i as int].pageid,
                            wm.1[i as int].old_revid,
                        ),
                    });
                    assert(menu.deep_view() =~= mdv0.push(em));
                    assert(wm.1.take(i as int + 1).drop_last() =~= wm.1.take(i as int));
                    assert(wm.1.take(i as int + 1).last() == wm.1[i as int]);
                    assert(pages_model(wm.0.index_url, wm.1.take(i as int + 1)) == pages_model(
                        wm.0.index_url,
                        wm.1.take(i as int),
                    ).push(em));
                    assert(mdv0.push(em) =~= base + seq![
                        EntryModel::Separator,
                        wiki_header_model(wm.0, exe_available),
                    ] + pages_model(wm.0.index_url, wm.1.take(i as int + 1)));
                }
                i += 1;
            }
            proof {
                assert(wm.1.take(m as int) =~= wm.1);
                assert(agg@.take(k as int + 1).drop_last() =~= agg@.take(k as int));
                assert(agg@.take(k as int + 1).last() == wm);
                assert(wiki_block_model(wm, exe_available) == seq![
                    EntryModel::Separator,
                    wiki_header_model(wm.0, exe_available),
                ] + pages_model(wm.0.index_url, wm.1));
                assert(menu.deep_view() =~= hdr + blocks_model(
                    agg@.take(k as int + 1),
                    exe_available,
                ));
            }
        } else {
            proof {
                assert(agg@.take(k as int + 1).drop_last() =~= agg@.take(k as int));
                assert(agg@.take(k as int + 1).last() == wm);
                assert(wiki_block_model(wm, exe_available) =~= Seq::<EntryModel>::empty());
                assert(menu.deep_view() =~= hdr + blocks_model(
                    agg@.take(k as int + 1),
                    exe_available,
                ));
            }
        }
        k += 1;
    }
    proof {
        assert(agg@.take(n as int) =~= agg@);
        assert(menu.deep_view() =~= render_model(agg@, exe_available));
    }
    menu
}

/// The diagnostic lines shown for a failed run, one menu label each.
pub open spec fn error_lines_model(e: ErrorModel) -> Seq<Seq<char>> {
    match e {
        ErrorModel::MissingConfig => seq!["missing or invalid configuration file"@],
        ErrorModel::ConfigFormat { detail } => seq!["error in config file: "@ + detail],
        ErrorModel::Transport { detail } => seq![detail],
        ErrorModel::WatchlistFormatOuter { wiki, raw } => seq![
            "did not receive watchlist for "@ + wiki + ", received:"@,
            raw,
        ],
        ErrorModel::WatchlistFormatInner { wiki, detail } => seq![
            "received incorrectly formatted watchlist for "@ + wiki,
            detail,
        ],
        ErrorModel::UnknownWiki { name } => seq!["error in open_all command: unknown wiki: "@
            + name],
        ErrorModel::Subprocess { detail } => seq![detail],
    }
}

/// The given lines as plain, non-clickable menu labels, in order.
pub open spec fn plain_labels(ts: Seq<Seq<char>>) -> Seq<EntryModel>
    decreases ts.len(),
{
    if ts.len() == 0 {
        Seq::empty()
    } else {
        plain_labels(ts.drop_last()).push(EntryModel::PlainLabel { text: ts.last() })
    }
}

/// The best-effort menu for a failed run: the diagnostic lines as plain
/// labels, so the host always has something to display.
pub open spec fn error_menu_model(e: ErrorModel) -> Seq<EntryModel> {
    plain_labels(error_lines_model(e))
}

/// The human-readable description of a failure, line by line.
pub fn error_lines(e: &Error) -> (lines: Vec<String>)
    ensures
        lines.deep_view() == error_lines_model(e@),
{
    let mut lines: Vec<String> = Vec::new();
    match e {
        Error::MissingConfig => {
            lines.push("missing or invalid configuration file".to_owned());
        },
        Error::ConfigFormat { detail } => {
            let mut line = "error in config file: ".to_owned();
            line.append(detail.as_str());
            lines.push(line);
        },
        Error::Transport { detail } => {
            lines.push(detail.clone());
        },
        Error::WatchlistFormatOuter { wiki, raw } => {
            let mut line = "did not receive watchlist for ".to_owned();
            line.append(wiki.as_str());
            line.append(", received:");
            lines.push(line);
            lines.push(raw.clone());
        },
        Error::WatchlistFormatInner { wiki, detail } => {
            let mut line = "received incorrectly formatted watchlist for ".to_owned();
            line.append(wiki.as_str());
            lines.push(line);
            lines.push(detail.clone());
        },
        Error::UnknownWiki { name } => {
            let mut line = "error in open_all command: unknown wiki: ".to_owned();
            line.append(name.as_str());
            lines.push(line);
        },
        Error::Subprocess { detail } => {
            lines.push(detail.clone());
        },
    }
    proof {
        assert(lines.deep_view() =~= error_lines_model(e@));
    }
    lines
}

/// The error menu: every diagnostic line as a plain, non-clickable label.
pub fn error_menu(e: &Error) -> (menu: Vec<MenuEntry>)
    ensures
        menu.deep_view() == error_menu_model(e@),
{
    let lines = error_lines(e);
    let mut menu: Vec<MenuEntry> = Vec::new();
    let n = lines.len();
    let mut k: usize = 0;
    proof {
        assert(error_lines_model(e@).take(0) =~= Seq::<Seq<char>>::empty());
        assert(menu.deep_view() =~= plain_labels(error_lines_model(e@).take(0)));
    }
    while k < n
        invariant
            k <= n,
            n == lines@.len(),
            lines.deep_view() == error_lines_model(e@),
            menu.deep_view() == plain_labels(error_lines_model(e@).take(k as int)),
        decreases n - k,
    {
        menu.push(MenuEntry::PlainLabel { text: lines[k].clone() });
        proof {
            let lm = error_lines_model(e@);
            assert(lines@[k as int]@ == lm[k as int]);
            assert(lm.take(k as int + 1).drop_last() =~= lm.take(k as int));
            assert(lm.take(k as int + 1).last() == lm[k as int]);
            assert(menu.deep_view() =~= plain_labels(lm.take(k as int + 1)));
        }
        k += 1;
    }
    proof {
        assert(error_lines_model(e@).take(n as int) =~= error_lines_model(e@));
        assert(menu.deep_view() =~= error_menu_model(e@));
    }
    menu
}

/// How many separators a menu holds.
pub open spec fn separator_count(s: Seq<EntryModel>) -> int
    decreases s.len(),
{
    if s.len() == 0 {
        0
    } else {
        separator_count(s.drop_last()) + if s.last() is Separator {
            1int
        } else {
            0int
        }
    }
}

/// How many wikis have a non-empty reduced watchlist.
pub open spec fn nonempty_wiki_count(ws: Seq<(ConfigModel, Seq<ItemModel>)>) -> int
    decreases ws.len(),
{
    if ws.len() == 0 {
        0
    } else {
        nonempty_wiki_count(ws.drop_last()) + if ws.last().1.len() > 0 {
            1int
        } else {
            0int
        }
    }
}

/// Separator counting distributes over concatenation.
proof fn lemma_separator_count_add(a: Seq<EntryModel>, b: Seq<EntryModel>)
    ensures
        separator_count(a + b) == separator_count(a) + separator_count(b),
    decreases b.len(),
{
    if b.len() == 0 {
        assert(a + b =~= a);
    } else {
        assert((a + b).drop_last() =~= a + b.drop_last());
        assert((a + b).last() == b.last());
        lemma_separator_count_add(a, b.drop_last());
    }
}

/// Page entries are never separators.
proof fn lemma_pages_no_separator(index_url: Seq<char>, items: Seq<ItemModel>)
    ensures
        separator_count(pages_model(index_url, items)) == 0,
    decreases items.len(),
{
    if items.len() > 0 {
        lemma_pages_no_separator(index_url, items.drop_last());
        let p = pages_model(index_url, items);
        assert(p.drop_last() =~= pages_model(index_url, items.drop_last()));
        assert(!(p.last() is Separator));
    }
}

/// A wiki's block holds exactly one separator when it has unread pages,
/// and none when it does not.
proof fn lemma_block_separators(w: (ConfigModel, Seq<ItemModel>), exe_available: bool)
    ensures
        separator_count(wiki_block_model(w, exe_available)) == if w.1.len() > 0 {
            1int
        } else {
            0int
        },
{
    if w.1.len() > 0 {
        let two = seq![EntryModel::Separator, wiki_header_model(w.0, exe_available)];
        lemma_separator_count_add(two, pages_model(w.0.index_url, w.1));
        lemma_pages_no_separator(w.0.index_url, w.1);
        assert(two.drop_last() =~= seq![EntryModel::Separator]);
        assert(two.last() == wiki_header_model(w.0, exe_available));
        assert(seq![EntryModel::Separator].drop_last() =~= Seq::<EntryModel>::empty());
        assert(seq![EntryModel::Separator].last() == EntryModel::Separator);
        assert(separator_count(Seq::<EntryModel>::empty()) == 0);
        assert(separator_count(seq![EntryModel::Separator]) == 1);
        assert(separator_count(two) == 1);
    }
}

/// With nothing unread the menu is empty: no header, no separator, nothing.
pub proof fn lemma_menu_empty_when_nothing_unread(
    ws: Seq<(ConfigModel, Seq<ItemModel>)>,
    exe_available: bool,
)
    requires
        total_of(ws) == 0,
    ensures
        render_model(ws, exe_available) == Seq::<EntryModel>::empty(),
{
}

/// The menu holds exactly one separator per wiki with a non-empty reduced
/// watchlist, and none for wikis with an empty one.
pub proof fn lemma_one_separator_per_nonempty_wiki(
    ws: Seq<(ConfigModel, Seq<ItemModel>)>,
    exe_available: bool,
)
    ensures
        separator_count(render_model(ws, exe_available)) == if total_of(ws) == 0 {
            0int
        } else {
            nonempty_wiki_count(ws)
        },
{
    if total_of(ws) != 0 {
        let hdr = seq![EntryModel::Header { text: decimal_digits(total_of(ws) as nat) }];
        lemma_separator_count_add(hdr, blocks_model(ws, exe_available));
        assert(hdr.drop_last() =~= Seq::<EntryModel>::empty());
        assert(!(hdr.last() is Separator));
        assert(separator_count(Seq::<EntryModel>::empty()) == 0);
        assert(separator_count(hdr) == 0);
        lemma_blocks_separators(ws, exe_available);
    }
}

proof fn lemma_blocks_separators(ws: Seq<(ConfigModel, Seq<ItemModel>)>, exe_available: bool)
    ensures
        separator_count(blocks_model(ws, exe_available)) == nonempty_wiki_count(ws),
    decreases ws.len(),
{
    if ws.len() > 0 {
        lemma_blocks_separators(ws.drop_last(), exe_available);
        lemma_separator_count_add(
            blocks_model(ws.drop_last(), exe_available),
            wiki_block_model(ws.last(), exe_available),
        );
        lemma_block_separators(ws.last(), exe_available);
    }
}

/// The page entries of one wiki correspond one to one with its reduced
/// watchlist: same order, the page's title as label, and as target exactly
/// the diff link built from the wiki's index URL and the record's ids.
pub proof fn lemma_pages_model_entries(index_url: Seq<char>, items: Seq<ItemModel>, i: int)
    requires
        0 <= i < items.len(),
    ensures
        pages_model(index_url, items).len() == items.len(),
        pages_model(index_url, items)[i] == (EntryModel::PageLink {
            label: items[i].title,
            url: diff_url_spec(index_url, items[i].pageid, items[i].old_revid),
        }),
    decreases items.len(),
{
    if i < items.len() - 1 {
        lemma_pages_model_entries(index_url, items.drop_last(), i);
    } else {
        lemma_pages_model_len(index_url, items.drop_last());
    }
}

proof fn lemma_pages_model_len(index_url: Seq<char>, items: Seq<ItemModel>)
    ensures
        pages_model(index_url, items).len() == items.len(),
    decreases items.len(),
{
    if items.len() > 0 {
        lemma_pages_model_len(index_url, items.drop_last());
    }
}

proof fn lemma_blocks_page_links(
    ws: Seq<(ConfigModel, Seq<ItemModel>)>,
    exe_available: bool,
    i: int,
)
    requires
        0 <= i < blocks_model(ws, exe_available).len(),
        (blocks_model(ws, exe_available)[i] is PageLink),
    ensures
        (exists|k: int, j: int|
            0 <= k < ws.len() && 0 <= j < ws[k].1.len() && blocks_model(ws, exe_available)[i]
                == EntryModel::PageLink {
                label: (#[trigger] ws[k].1[j]).title,
                url: diff_url_spec(ws[k].0.index_url, ws[k].1[j].pageid, ws[k].1[j].old_revid),
            }),
    decreases ws.len(),
{
    let b = blocks_model(ws, exe_available);
    let prefix = blocks_model(ws.drop_last(), exe_available);
    let w = ws.last();
    let block = wiki_block_model(w, exe_available);
    if i < prefix.len() {
        lemma_blocks_page_links(ws.drop_last(), exe_available, i);
        let (k0, j0) = choose|k: int, j: int|
            0 <= k < ws.drop_last().len() && 0 <= j < ws.drop_last()[k].1.len() && prefix[i]
                == EntryModel::PageLink {
                label: (#[trigger] ws.drop_last()[k].1[j]).title,
                url: diff_url_spec(
                    ws.drop_last()[k].0.index_url,
                    ws.drop_last()[k].1[j].pageid,
                    ws.drop_last()[k].1[j].old_revid,
                ),
            };
        assert(ws[k0] == ws.drop_last()[k0]);
        assert(b[i] == prefix[i]);
        assert(0 <= k0 < ws.len() && 0 <= j0 < ws[k0].1.len() && b[i] == EntryModel::PageLink {
            label: ws[k0].1[j0].title,
            url: diff_url_spec(ws[k0].0.index_url, ws[k0].1[j0].pageid, ws[k0].1[j0].old_revid),
        });
    } else {
        let i2 = i - prefix.len();
        assert(b[i] == block[i2]);
        assert(w.1.len() > 0);
        let pages = pages_model(w.0.index_url, w.1);
        lemma_pages_model_len(w.0.index_url, w.1);
        assert(i2 >= 2) by {
            if i2 == 0 {
                assert(block[0] is Separator);
            } else if i2 == 1 {
                assert(block[1] == wiki_header_model(w.0, exe_available));
            }
        }
        let j0 = i2 - 2;
        lemma_pages_model_entries(w.0.index_url, w.1, j0);
        let k0 = ws.len() - 1;
        assert(block[i2] == pages[j0]);
        assert(0 <= k0 < ws.len() && 0 <= j0 < ws[k0].1.len() && b[i] == EntryModel::PageLink {
            label: ws[k0].1[j0].title,
            url: diff_url_spec(ws[k0].0.index_url, ws[k0].1[j0].pageid, ws[k0].1[j0].old_revid),
        });
    }
}

/// Every clickable page entry of the rendered menu is the diff link of one
/// of the aggregated records: `<indexUrl>?pageid=<id>&diff=next&oldid=<rev>`
/// built from that record's wiki, exactly.
pub proof fn lemma_menu_page_links(
    ws: Seq<(ConfigModel, Seq<ItemModel>)>,
    exe_available: bool,
    i: int,
)
    requires
        0 <= i < render_model(ws, exe_available).len(),
        (render_model(ws, exe_available)[i] is PageLink),
    ensures
        (exists|k: int, j: int|
            0 <= k < ws.len() && 0 <= j < ws[k].1.len() && render_model(ws, exe_available)[i]
                == EntryModel::PageLink {
                label: (#[trigger] ws[k].1[j]).title,
                url: diff_url_spec(ws[k].0.index_url, ws[k].1[j].pageid, ws[k].1[j].old_revid),
            }),
{
    let r = render_model(ws, exe_available);
    let hdr = seq![EntryModel::Header { text: decimal_digits(total_of(ws) as nat) }];
    assert(total_of(ws) != 0);
    assert(r == hdr + blocks_model(ws, exe_available));
    assert(i >= 1) by {
        if i == 0 {
            assert(r[0] is Header);
        }
    }
    assert(r[i] == blocks_model(ws, exe_available)[i - 1]);
    lemma_blocks_page_links(ws, exe_available, i - 1);
    let (k0, j0) = choose|k: int, j: int|
        0 <= k < ws.len() && 0 <= j < ws[k].1.len() && blocks_model(ws, exe_available)[i - 1]
            == EntryModel::PageLink {
            label: (#[trigger] ws[k].1[j]).title,
            url: diff_url_spec(ws[k].0.index_url, ws[k].1[j].pageid, ws[k].1[j].old_revid),
        };
    assert(0 <= k0 < ws.len() && 0 <= j0 < ws[k0].1.len() && r[i] == EntryModel::PageLink {
        label: ws[k0].1[j0].title,
        url: diff_url_spec(ws[k0].0.index_url, ws[k0].1[j0].pageid, ws[k0].1[j0].old_revid),
    });
}

} // verus!
