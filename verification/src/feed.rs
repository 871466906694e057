//! The feed as its XML gives it: a channel of items.

use vstd::prelude::*;

verus! {

/// Where the feed of severe weather watches alone is published.
pub const RSS_SEVERE: &'static str = "https://www.spc.noaa.gov/products/spcwwrss.xml";

/// Where the feed of all products is published.
pub const RSS_ALL: &'static str = "https://www.spc.noaa.gov/products/spcrss.xml";

/// One entry of the feed.
#[derive(Debug, Clone, PartialEq, Eq)]
pub struct Item {
    pub link: String,
    pub title: String,
    /// A fragment of HTML that holds the warning's text in a preformatted block.
    pub description: String,
}

/// What an [`Item`] holds.
pub ghost struct ItemView {
    pub link: Seq<char>,
    pub title: Seq<char>,
    pub description: Seq<char>,
}

impl View for Item {
    type V = ItemView;

    open spec fn view(&self) -> ItemView {
        ItemView { link: self.link@, title: self.title@, description: self.description@ }
    }
}

/// The items of a feed, in the feed's order.
#[derive(Debug, Clone, PartialEq, Eq)]
pub struct Channel {
    pub item: Vec<Item>,
}

/// A decoded feed.
#[derive(Debug, Clone, PartialEq, Eq)]
pub struct Rss {
    pub channel: Channel,
}

impl View for Rss {
    type V = Seq<ItemView>;

    open spec fn view(&self) -> Seq<ItemView> {
        self.channel.item@.map_values(|item: Item| item@)
    }
}

/// Why no feed could be had. The text is the message of whatever failed.
#[derive(Debug, Clone, PartialEq, Eq)]
pub enum FeedError {
    /// The request could not be completed, or its body could not be read as text.
    Transport(String),
    /// The body is not the XML of a feed: malformed, or an item lacks a field.
    Parse(String),
}

} // verus!
