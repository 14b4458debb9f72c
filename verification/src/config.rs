//! The per-wiki configuration record.

use vstd::prelude::*;

verus! {

/// One configured wiki. The display name is the stable external identifier:
/// it is the menu label and the sole argument of the "open all" command.
#[derive(Debug, PartialEq, Eq)]
pub struct WikiConfig {
    /// Unique human-readable name, used for lookups and menu labels.
    pub display_name: String,
    /// Endpoint of the wiki's query API.
    pub api_url: String,
    /// Human-browsable URL that diff links are built from.
    pub index_url: String,
    /// Name of the user whose watchlist is queried.
    pub username: String,
    /// Token granting read access to that user's watchlist.
    pub watchlist_token: String,
}

/// Mathematical model of a `WikiConfig`.
pub ghost struct ConfigModel {
    pub display_name: Seq<char>,
    pub api_url: Seq<char>,
    pub index_url: Seq<char>,
    pub username: Seq<char>,
    pub watchlist_token: Seq<char>,
}

impl View for WikiConfig {
    type V = ConfigModel;

    open spec fn view(&self) -> ConfigModel {
        ConfigModel {
            display_name: self.display_name@,
            api_url: self.api_url@,
            index_url: self.index_url@,
            username: self.username@,
            watchlist_token: self.watchlist_token@,
        }
    }
}

impl DeepView for WikiConfig {
    type V = ConfigModel;

    open spec fn deep_view(&self) -> ConfigModel {
        self.view()
    }
}

impl WikiConfig {
    /// An owned copy with the same model.
    pub fn duplicate(&self) -> (r: WikiConfig)
        ensures
            r@ == self@,
    {
        WikiConfig {
            display_name: self.display_name.clone(),
            api_url: self.api_url.clone(),
            index_url: self.index_url.clone(),
            username: self.username.clone(),
            watchlist_token: self.watchlist_token.clone(),
        }
    }
}

} // verus!
