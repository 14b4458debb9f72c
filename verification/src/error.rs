//! The error kinds a run can end with.

use vstd::prelude::*;

verus! {

/// Everything that can go wrong while building the menu or opening diffs.
///
/// The two watchlist-format kinds carry the display name of the offending
/// wiki so a diagnostic can say which wiki misbehaved; the outer kind also
/// carries the raw response text, the inner kind a parse description.
#[derive(Debug, PartialEq, Eq)]
pub enum Error {
    /// No usable configuration source was found.
    MissingConfig,
    /// A configuration source was found but could not be parsed.
    ConfigFormat { detail: String },
    /// The network or the wiki API was unreachable.
    Transport { detail: String },
    /// The API response lacks the watchlist field at the expected path.
    WatchlistFormatOuter { wiki: String, raw: String },
    /// The watchlist field is present but an entry has the wrong shape.
    WatchlistFormatInner { wiki: String, detail: String },
    /// "Open all" was requested for a display name not in the configuration.
    UnknownWiki { name: String },
    /// A browser-launch process could not be started or awaited.
    Subprocess { detail: String },
}

/// Mathematical model of an `Error`.
pub ghost enum ErrorModel {
    MissingConfig,
    ConfigFormat { detail: Seq<char> },
    Transport { detail: Seq<char> },
    WatchlistFormatOuter { wiki: Seq<char>, raw: Seq<char> },
    WatchlistFormatInner { wiki: Seq<char>, detail: Seq<char> },
    UnknownWiki { name: Seq<char> },
    Subprocess { detail: Seq<char> },
}

impl View for Error {
    type V = ErrorModel;

    open spec fn view(&self) -> ErrorModel {
        match self {
            Error::MissingConfig => ErrorModel::MissingConfig,
            Error::ConfigFormat { detail } => ErrorModel::ConfigFormat { detail: detail@ },
            Error::Transport { detail } => ErrorModel::Transport { detail: detail@ },
            Error::WatchlistFormatOuter { wiki, raw } => ErrorModel::WatchlistFormatOuter {
                wiki: wiki@,
                raw: raw@,
            },
            Error::WatchlistFormatInner { wiki, detail } => ErrorModel::WatchlistFormatInner {
                wiki: wiki@,
                detail: detail@,
            },
            Error::UnknownWiki { name } => ErrorModel::UnknownWiki { name: name@ },
            Error::Subprocess { detail } => ErrorModel::Subprocess { detail: detail@ },
        }
    }
}

impl DeepView for Error {
    type V = ErrorModel;

    open spec fn deep_view(&self) -> ErrorModel {
        self.view()
    }
}

impl Error {
    /// An owned copy with the same model.
    pub fn duplicate(&self) -> (r: Error)
        ensures
            r@ == self@,
    {
        match self {
            Error::MissingConfig => Error::MissingConfig,
            Error::ConfigFormat { detail } => Error::ConfigFormat { detail: detail.clone() },
            Error::Transport { detail } => Error::Transport { detail: detail.clone() },
            Error::WatchlistFormatOuter { wiki, raw } => Error::WatchlistFormatOuter {
                wiki: wiki.clone(),
                raw: raw.clone(),
            },
            Error::WatchlistFormatInner { wiki, detail } => Error::WatchlistFormatInner {
                wiki: wiki.clone(),
                detail: detail.clone(),
            },
            Error::UnknownWiki { name } => Error::UnknownWiki { name: name.clone() },
            Error::Subprocess { detail } => Error::Subprocess { detail: detail.clone() },
        }
    }
}

} // verus!
